//! Small text helpers: decimal rendering, whitespace and ASCII case rules.

use vstd::prelude::*;

verus! {

/// The ASCII digit for `d` (`0..=9`).
pub open spec fn digit_char(d: nat) -> char {
    if d == 0 { '0' }
    else if d == 1 { '1' }
    else if d == 2 { '2' }
    else if d == 3 { '3' }
    else if d == 4 { '4' }
    else if d == 5 { '5' }
    else if d == 6 { '6' }
    else if d == 7 { '7' }
    else if d == 8 { '8' }
    else { '9' }
}

/// Shortest decimal rendering of `n` (no sign, no leading zeros).
pub open spec fn decimal(n: nat) -> Seq<char>
    decreases n,
{
    if n < 10 {
        seq![digit_char(n)]
    } else {
        decimal(n / 10).push(digit_char(n % 10))
    }
}

/// `s` left-padded with `'0'` up to `width` characters.
pub open spec fn zero_pad(s: Seq<char>, width: nat) -> Seq<char> {
    if s.len() >= width {
        s
    } else {
        Seq::new((width - s.len()) as nat, |i: int| '0') + s
    }
}

/// The characters that `char::is_whitespace` accepts: the Unicode
/// `White_Space` property.
pub open spec fn is_white_space(c: char) -> bool {
    ||| ('\u{9}' <= c && c <= '\u{d}')
    ||| c == ' '
    ||| c == '\u{85}'
    ||| c == '\u{a0}'
    ||| c == '\u{1680}'
    ||| ('\u{2000}' <= c && c <= '\u{200a}')
    ||| c == '\u{2028}'
    ||| c == '\u{2029}'
    ||| c == '\u{202f}'
    ||| c == '\u{205f}'
    ||| c == '\u{3000}'
}

/// A text is blank when trimming it leaves nothing: every character is
/// white space.
pub open spec fn is_blank(s: Seq<char>) -> bool {
    forall|i: int| 0 <= i < s.len() ==> is_white_space(#[trigger] s[i])
}

/// ASCII lower-casing of one character (other characters are unchanged).
pub open spec fn ascii_lower(c: char) -> char {
    if 'A' <= c && c <= 'Z' {
        ((c as u32) + 32) as char
    } else {
        c
    }
}

/// ASCII lower-casing of a whole text.
pub open spec fn ascii_lower_all(s: Seq<char>) -> Seq<char> {
    Seq::new(s.len(), |i: int| ascii_lower(s[i]))
}

/// Index of the first non-white-space character of `s` at or after `i`
/// (or `s.len()`).
pub open spec fn lead(s: Seq<char>, i: int) -> int
    decreases s.len() - i,
{
    if 0 <= i < s.len() && is_white_space(s[i]) {
        lead(s, i + 1)
    } else {
        i
    }
}

/// End of `s.take(j)` once its trailing white space is dropped.
pub open spec fn trail(s: Seq<char>, j: int) -> int
    decreases j,
{
    if 0 < j <= s.len() && is_white_space(s[j - 1]) {
        trail(s, j - 1)
    } else {
        j
    }
}

/// `s` without leading and trailing white space (what `str::trim` gives).
pub open spec fn trimmed(s: Seq<char>) -> Seq<char> {
    let a = lead(s, 0);
    if a >= s.len() {
        Seq::empty()
    } else {
        s.subrange(a, trail(s, s.len() as int))
    }
}

/// `String::push`: appends one character.
#[verifier::external_body]
pub(crate) fn push_char(s: &mut String, c: char)
    ensures
        final(s)@ == old(s)@.push(c),
{
    s.push(c);
}

/// The ASCII digit for `d`.
pub fn digit(d: u64) -> (c: char)
    requires
        d < 10,
    ensures
        c == digit_char(d as nat),
{
    if d == 0 { '0' }
    else if d == 1 { '1' }
    else if d == 2 { '2' }
    else if d == 3 { '3' }
    else if d == 4 { '4' }
    else if d == 5 { '5' }
    else if d == 6 { '6' }
    else if d == 7 { '7' }
    else if d == 8 { '8' }
    else { '9' }
}

/// Appends the decimal rendering of `n`.
pub fn push_decimal(s: &mut String, n: u64)
    ensures
        final(s)@ == old(s)@ + decimal(n as nat),
    decreases n,
{
    if n < 10 {
        push_char(s, digit(n));
    } else {
        push_decimal(s, n / 10);
        push_char(s, digit(n % 10));
    }
}

/// Length of the decimal rendering of `n`.
pub fn decimal_len(n: u64) -> (l: usize)
    ensures
        l == decimal(n as nat).len(),
        l <= 20,
    decreases n,
{
    if n < 10 {
        1
    } else {
        let k = decimal_len(n / 10);
        proof {
            lemma_decimal_len_bound(n as nat);
        }
        k + 1
    }
}

proof fn lemma_decimal_len_bound(n: nat)
    requires
        n <= u64::MAX,
    ensures
        decimal(n).len() <= 20,
{
    assert(pow10(20) == 100000000000000000000nat) by {
        reveal_with_fuel(pow10, 21);
    }
    lemma_decimal_len_le(n, 20);
}

/// `decimal(n)` has at most `k` digits when `n < 10^k`.
proof fn lemma_decimal_len_le(n: nat, k: nat)
    requires
        n < pow10(k),
        k >= 1,
    ensures
        decimal(n).len() <= k,
    decreases n,
{
    if n >= 10 {
        assert(pow10(k) == 10 * pow10((k - 1) as nat));
        if k == 1 {
            assert(pow10(0) == 1);
        } else {
            lemma_decimal_len_le(n / 10, (k - 1) as nat);
        }
    }
}

/// `10^k`.
pub open spec fn pow10(k: nat) -> nat
    decreases k,
{
    if k == 0 {
        1
    } else {
        10 * pow10((k - 1) as nat)
    }
}

/// Appends `n` in decimal, left-padded with zeros to `width` characters.
pub fn push_zero_padded(s: &mut String, n: u64, width: usize)
    ensures
        final(s)@ == old(s)@ + zero_pad(decimal(n as nat), width as nat),
{
    let len = decimal_len(n);
    let mut k: usize = len;
    let ghost start = s@;
    while k < width
        invariant
            len <= k,
            k <= width || k == len,
            len == decimal(n as nat).len(),
            s@ == start + Seq::new((k - len) as nat, |i: int| '0'),
        decreases width - k,
    {
        push_char(s, '0');
        k = k + 1;
        assert(s@ == start + Seq::new((k - len) as nat, |i: int| '0'));
    }
    push_decimal(s, n);
    assert(s@ == old(s)@ + zero_pad(decimal(n as nat), width as nat));
}

/// `char::is_whitespace`, restated over the `White_Space` table.
pub fn is_whitespace_char(c: char) -> (b: bool)
    ensures
        b == is_white_space(c),
{
    ('\u{9}' <= c && c <= '\u{d}') || c == ' ' || c == '\u{85}' || c == '\u{a0}'
        || c == '\u{1680}' || ('\u{2000}' <= c && c <= '\u{200a}') || c == '\u{2028}'
        || c == '\u{2029}' || c == '\u{202f}' || c == '\u{205f}' || c == '\u{3000}'
}

/// Whether `s.trim().is_empty()`: every character is white space.
pub fn is_blank_str(s: &str) -> (b: bool)
    ensures
        b == is_blank(s@),
{
    let n = s.unicode_len();
    let mut i: usize = 0;
    while i < n
        invariant
            n == s@.len(),
            i <= n,
            forall|j: int| 0 <= j < i ==> is_white_space(#[trigger] s@[j]),
        decreases n - i,
    {
        if !is_whitespace_char(s.get_char(i)) {
            return false;
        }
        i = i + 1;
    }
    true
}

/// ASCII lower-casing (what `str::to_ascii_lowercase` does).
pub fn to_ascii_lower(s: &str) -> (r: String)
    ensures
        r@ == ascii_lower_all(s@),
{
    let n = s.unicode_len();
    let mut r = String::new();
    let mut i: usize = 0;
    while i < n
        invariant
            n == s@.len(),
            i <= n,
            r@ == ascii_lower_all(s@).subrange(0, i as int),
        decreases n - i,
    {
        let c = s.get_char(i);
        let l = if 'A' <= c && c <= 'Z' {
            char_add_32(c)
        } else {
            c
        };
        push_char(&mut r, l);
        assert(r@ == ascii_lower_all(s@).subrange(0, i + 1));
        i = i + 1;
    }
    assert(ascii_lower_all(s@).subrange(0, n as int) == ascii_lower_all(s@));
    r
}

/// The lower-case ASCII letter of an upper-case one.
fn char_add_32(c: char) -> (l: char)
    requires
        'A' <= c && c <= 'Z',
    ensures
        l == ascii_lower(c),
{
    let code: u32 = c as u32;
    let low: u8 = (code + 32) as u8;
    low as char
}

/// Whether two texts are equal, character by character.
pub fn str_equal(a: &str, b: &str) -> (r: bool)
    ensures
        r == (a@ == b@),
{
    let n = a.unicode_len();
    let m = b.unicode_len();
    if n != m {
        return false;
    }
    let mut i: usize = 0;
    while i < n
        invariant
            n == a@.len(),
            m == b@.len(),
            n == m,
            i <= n,
            forall|j: int| 0 <= j < i ==> a@[j] == b@[j],
        decreases n - i,
    {
        if a.get_char(i) != b.get_char(i) {
            return false;
        }
        i = i + 1;
    }
    assert(a@ =~= b@);
    true
}

/// Lexicographic order of texts by character code (what `str::cmp` gives,
/// byte order of UTF-8 being code-point order).
pub open spec fn text_less(a: Seq<char>, b: Seq<char>) -> bool
    decreases a.len(),
{
    if a.len() == 0 {
        b.len() > 0
    } else if b.len() == 0 {
        false
    } else if a[0] < b[0] {
        true
    } else if a[0] == b[0] {
        text_less(a.drop_first(), b.drop_first())
    } else {
        false
    }
}

/// `text_less` is irreflexive.
pub proof fn lemma_text_less_irreflexive(a: Seq<char>)
    ensures
        !text_less(a, a),
    decreases a.len(),
{
    if a.len() > 0 {
        lemma_text_less_irreflexive(a.drop_first());
    }
}

/// `text_less` is transitive.
pub proof fn lemma_text_less_transitive(a: Seq<char>, b: Seq<char>, c: Seq<char>)
    requires
        text_less(a, b),
        text_less(b, c),
    ensures
        text_less(a, c),
    decreases a.len(),
{
    if a.len() > 0 && b.len() > 0 && c.len() > 0 {
        if a[0] == b[0] && b[0] == c[0] {
            lemma_text_less_transitive(a.drop_first(), b.drop_first(), c.drop_first());
        }
    }
}

/// Two different texts are ordered one way or the other.
pub proof fn lemma_text_less_total(a: Seq<char>, b: Seq<char>)
    requires
        a != b,
    ensures
        text_less(a, b) || text_less(b, a),
    decreases a.len(),
{
    if a.len() > 0 && b.len() > 0 {
        if a[0] == b[0] {
            assert(a.drop_first() != b.drop_first()) by {
                if a.drop_first() == b.drop_first() {
                    assert(a =~= seq![a[0]] + a.drop_first());
                    assert(b =~= seq![b[0]] + b.drop_first());
                }
            }
            lemma_text_less_total(a.drop_first(), b.drop_first());
        } else {
            assert(a[0] < b[0] || b[0] < a[0]);
        }
    } else if a.len() == 0 && b.len() == 0 {
        assert(a =~= b);
    }
}

/// `a < b` in lexicographic order.
pub fn str_less(a: &str, b: &str) -> (r: bool)
    ensures
        r == text_less(a@, b@),
{
    let n = a.unicode_len();
    let m = b.unicode_len();
    let mut i: usize = 0;
    assert(a@.skip(0) =~= a@);
    assert(b@.skip(0) =~= b@);
    while i < n && i < m
        invariant
            n == a@.len(),
            m == b@.len(),
            i <= n,
            i <= m,
            text_less(a@, b@) == text_less(a@.skip(i as int), b@.skip(i as int)),
        decreases n - i,
    {
        let x = a.get_char(i);
        let y = b.get_char(i);
        assert(a@.skip(i as int)[0] == x);
        assert(b@.skip(i as int)[0] == y);
        if x < y {
            return true;
        }
        if x != y {
            return false;
        }
        assert(a@.skip(i as int).drop_first() =~= a@.skip(i + 1));
        assert(b@.skip(i as int).drop_first() =~= b@.skip(i + 1));
        i = i + 1;
    }
    i == n && i < m
}

/// The pieces of `s` between occurrences of `sep` (what `str::split` with
/// a character gives): one more piece than there are separators.
pub open spec fn split_text(s: Seq<char>, sep: char) -> Seq<Seq<char>>
    decreases s.len(),
{
    if s.len() == 0 {
        seq![Seq::empty()]
    } else {
        let p = split_text(s.drop_last(), sep);
        if s.last() == sep {
            p.push(Seq::empty())
        } else {
            p.update(p.len() - 1, p.last().push(s.last()))
        }
    }
}

/// Splitting always gives at least one piece.
pub proof fn lemma_split_nonempty(s: Seq<char>, sep: char)
    ensures
        split_text(s, sep).len() >= 1,
    decreases s.len(),
{
    if s.len() > 0 {
        lemma_split_nonempty(s.drop_last(), sep);
    }
}

/// The texts of a vector of strings.
pub open spec fn texts(v: Seq<String>) -> Seq<Seq<char>> {
    v.map_values(|p: String| p@)
}

/// Splits `s` at every `sep`.
pub fn split_on(s: &str, sep: char) -> (parts: Vec<String>)
    ensures
        texts(parts@) == split_text(s@, sep),
{
    broadcast use vstd::string::group_string_axioms;

    let mut parts: Vec<String> = Vec::new();
    let mut cur = String::new();
    let ghost whole = s@;
    for c in it: s.chars()
        invariant
            whole == s@,
            it.seq() == whole,
            texts(parts@).push(cur@) == split_text(whole.take(it.index() as int), sep),
    {
        let ghost i = it.index() as int;
        proof {
            lemma_split_nonempty(whole.take(i), sep);
            assert(whole.take(i + 1).drop_last() =~= whole.take(i));
            assert(whole.take(i + 1).last() == c);
        }
        if c == sep {
            let done = cur;
            parts.push(done);
            cur = String::new();
            proof {
                assert(texts(parts@) =~= texts(parts@.drop_last()).push(done@));
            }
        } else {
            push_char(&mut cur, c);
            proof {
                assert(texts(parts@).push(cur@) =~= split_text(whole.take(i), sep).update(
                    split_text(whole.take(i), sep).len() - 1,
                    split_text(whole.take(i), sep).last().push(c),
                ));
            }
        }
    }
    proof {
        assert(whole.take(whole.len() as int) =~= whole);
    }
    parts.push(cur);
    proof {
        assert(texts(parts@) =~= texts(parts@.drop_last()).push(parts@.last()@));
    }
    parts
}

/// `str::trim`: `s` without leading and trailing white space.
pub fn trim_text(s: &str) -> (r: String)
    ensures
        r@ == trimmed(s@),
{
    let n = s.unicode_len();
    let mut a: usize = 0;
    while a < n && is_whitespace_char(s.get_char(a))
        invariant
            n == s@.len(),
            a <= n,
            lead(s@, 0) == lead(s@, a as int),
        decreases n - a,
    {
        a = a + 1;
    }
    if a == n {
        return String::new();
    }
    let mut j: usize = n;
    while j > a && is_whitespace_char(s.get_char(j - 1))
        invariant
            n == s@.len(),
            a < n,
            !is_white_space(s@[a as int]),
            a < j <= n,
            trail(s@, n as int) == trail(s@, j as int),
        decreases j,
    {
        j = j - 1;
    }
    let sub = s.substring_char(a, j);
    String::from_str(sub)
}

/// `x` written in exactly `w` decimal digits (the low `w` digits of `x`).
pub open spec fn fixed_digits(x: nat, w: nat) -> Seq<char>
    decreases w,
{
    if w == 0 {
        Seq::empty()
    } else {
        fixed_digits(x / 10, (w - 1) as nat).push(digit_char(x % 10))
    }
}

/// `fixed_digits` writes exactly `w` characters.
pub proof fn lemma_fixed_digits_len(x: nat, w: nat)
    ensures
        fixed_digits(x, w).len() == w,
    decreases w,
{
    if w > 0 {
        lemma_fixed_digits_len(x / 10, (w - 1) as nat);
    }
}

proof fn lemma_fixed_zeros(k: nat)
    ensures
        fixed_digits(0, k) == Seq::new(k, |i: int| '0'),
    decreases k,
{
    if k > 0 {
        lemma_fixed_zeros((k - 1) as nat);
        assert(fixed_digits(0, k) =~= Seq::new(k, |i: int| '0'));
    }
}

/// Below `10^w`, zero-padding the decimal rendering to `w` characters
/// writes the number in exactly `w` digits.
pub proof fn lemma_zero_pad_is_fixed(x: nat, w: nat)
    requires
        1 <= w,
        x < pow10(w),
    ensures
        zero_pad(decimal(x), w) == fixed_digits(x, w),
    decreases w,
{
    lemma_decimal_len_le(x, w);
    if x < 10 {
        lemma_fixed_zeros((w - 1) as nat);
        assert(x / 10 == 0);
        assert(zero_pad(decimal(x), w) =~= fixed_digits(x, w));
    } else {
        assert(pow10(w) == 10 * pow10((w - 1) as nat));
        if w == 1 {
            assert(pow10(0) == 1);
        } else {
            lemma_zero_pad_is_fixed(x / 10, (w - 1) as nat);
            lemma_decimal_len_le(x / 10, (w - 1) as nat);
            assert(zero_pad(decimal(x), w) =~= zero_pad(decimal(x / 10), (w - 1) as nat).push(
                digit_char(x % 10),
            ));
        }
    }
}

/// Digits order as their values.
pub proof fn lemma_digit_char_order(a: nat, b: nat)
    requires
        a < b < 10,
    ensures
        digit_char(a) < digit_char(b),
{
}

/// Comparing texts that start with parts of the same length: the first
/// parts decide unless they are equal, and then the rest decides.
pub proof fn lemma_text_less_concat(a: Seq<char>, b: Seq<char>, c: Seq<char>, d: Seq<char>)
    requires
        a.len() == c.len(),
    ensures
        text_less(a, c) ==> text_less(a + b, c + d),
        a == c ==> (text_less(a + b, c + d) == text_less(b, d)),
    decreases a.len(),
{
    if a.len() > 0 {
        assert((a + b).drop_first() =~= a.drop_first() + b);
        assert((c + d).drop_first() =~= c.drop_first() + d);
        assert((a + b)[0] == a[0]);
        assert((c + d)[0] == c[0]);
        lemma_text_less_concat(a.drop_first(), b, c.drop_first(), d);
        if a == c {
            assert(a.drop_first() == c.drop_first());
        }
    } else {
        assert(a + b =~= b);
        assert(c + d =~= d);
    }
}

/// Numbers below `10^w` written in `w` digits sort as the numbers do.
pub proof fn lemma_fixed_digits_order(x: nat, y: nat, w: nat)
    requires
        x < y < pow10(w),
    ensures
        text_less(fixed_digits(x, w), fixed_digits(y, w)),
    decreases w,
{
    if w == 0 {
        assert(pow10(0) == 1);
    } else {
        assert(pow10(w) == 10 * pow10((w - 1) as nat));
        let px = fixed_digits(x / 10, (w - 1) as nat);
        let py = fixed_digits(y / 10, (w - 1) as nat);
        lemma_fixed_digits_len(x / 10, (w - 1) as nat);
        lemma_fixed_digits_len(y / 10, (w - 1) as nat);
        let cx = seq![digit_char(x % 10)];
        let cy = seq![digit_char(y % 10)];
        assert(fixed_digits(x, w) =~= px + cx);
        assert(fixed_digits(y, w) =~= py + cy);
        lemma_text_less_concat(px, cx, py, cy);
        if x / 10 < y / 10 {
            lemma_fixed_digits_order(x / 10, y / 10, (w - 1) as nat);
        } else {
            assert(x / 10 == y / 10);
            lemma_digit_char_order(x % 10, y % 10);
            assert(text_less(cx, cy)) by {
                assert(cx.drop_first().len() == 0);
            }
        }
    }
}

} // verus!
