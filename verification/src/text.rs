//! Character and string foundations shared by the conversion engine:
//! whitespace classification, trimming, word and substring search, ASCII
//! case mapping, and decimal rendering of integers.

use vstd::prelude::*;

verus! {

/// The whitespace characters this engine recognizes: the Unicode
/// White_Space code points.
pub open spec fn is_space(c: char) -> bool {
    ||| c == ' '
    ||| ('\t' <= c <= '\r')
    ||| c == '\u{85}'
    ||| c == '\u{a0}'
    ||| c == '\u{1680}'
    ||| ('\u{2000}' <= c <= '\u{200a}')
    ||| c == '\u{2028}'
    ||| c == '\u{2029}'
    ||| c == '\u{202f}'
    ||| c == '\u{205f}'
    ||| c == '\u{3000}'
}

pub fn char_is_space(c: char) -> (r: bool)
    ensures
        r == is_space(c),
{
    c == ' ' || ('\t' <= c && c <= '\r') || c == '\u{85}' || c == '\u{a0}' || c == '\u{1680}' || (
    '\u{2000}' <= c && c <= '\u{200a}') || c == '\u{2028}' || c == '\u{2029}' || c == '\u{202f}'
        || c == '\u{205f}' || c == '\u{3000}'
}

pub open spec fn all_space(s: Seq<char>) -> bool {
    forall|i: int| 0 <= i < s.len() ==> is_space(s[i])
}

/// `s` with its leading whitespace removed.
pub open spec fn trim_front(s: Seq<char>) -> Seq<char>
    decreases s.len(),
{
    if s.len() == 0 {
        s
    } else if is_space(s[0]) {
        trim_front(s.drop_first())
    } else {
        s
    }
}

/// `s` with its trailing whitespace removed.
pub open spec fn trim_back(s: Seq<char>) -> Seq<char>
    decreases s.len(),
{
    if s.len() == 0 {
        s
    } else if is_space(s.last()) {
        trim_back(s.drop_last())
    } else {
        s
    }
}

/// `s` with leading and trailing whitespace removed.
pub open spec fn trimmed(s: Seq<char>) -> Seq<char> {
    trim_back(trim_front(s))
}

proof fn lemma_trim_front_subrange(s: Seq<char>, a: int)
    requires
        0 <= a <= s.len(),
        forall|i: int| 0 <= i < a ==> is_space(s[i]),
        a < s.len() ==> !is_space(s[a]),
    ensures
        trim_front(s) == s.subrange(a, s.len() as int),
    decreases s.len(),
{
    if s.len() == 0 {
        assert(trim_front(s) =~= s.subrange(0, 0));
    } else if a == 0 {
        assert(trim_front(s) =~= s.subrange(0, s.len() as int));
    } else {
        let t = s.drop_first();
        assert(forall|i: int| 0 <= i < a - 1 ==> is_space(t[i]));
        lemma_trim_front_subrange(t, a - 1);
        assert(t.subrange(a - 1, t.len() as int) =~= s.subrange(a, s.len() as int));
    }
}

proof fn lemma_trim_back_subrange(s: Seq<char>, b: int)
    requires
        0 <= b <= s.len(),
        forall|i: int| b <= i < s.len() ==> is_space(s[i]),
        b > 0 ==> !is_space(s[b - 1]),
    ensures
        trim_back(s) == s.subrange(0, b),
    decreases s.len(),
{
    if s.len() == 0 {
        assert(trim_back(s) =~= s.subrange(0, 0));
    } else if b == s.len() {
        assert(trim_back(s) =~= s.subrange(0, b));
    } else {
        let t = s.drop_last();
        assert(forall|i: int| b <= i < t.len() ==> is_space(t[i]));
        lemma_trim_back_subrange(t, b);
        assert(t.subrange(0, b) =~= s.subrange(0, b));
    }
}

/// Whitespace-only content trims to nothing.
pub proof fn lemma_all_space_trims_empty(s: Seq<char>)
    requires
        all_space(s),
    ensures
        trimmed(s).len() == 0,
{
    lemma_trim_front_subrange(s, s.len() as int);
    assert(trim_front(s) =~= Seq::<char>::empty());
}

/// Trim a string on both sides, as `trimmed` describes.
pub fn trim_str(s: &str) -> (r: String)
    ensures
        r@ == trimmed(s@),
{
    let n = s.unicode_len();
    let mut a: usize = 0;
    while a < n && char_is_space(s.get_char(a))
        invariant
            0 <= a <= n,
            n == s@.len(),
            forall|i: int| 0 <= i < a ==> is_space(s@[i]),
        decreases n - a,
    {
        a = a + 1;
    }
    proof {
        lemma_trim_front_subrange(s@, a as int);
    }
    let ghost f = trim_front(s@);
    if a == n {
        proof {
            assert(f =~= Seq::<char>::empty());
            assert(trim_back(f) == f);
        }
        let r = String::new();
        return r;
    }
    // a < n and s@[a] is not whitespace, so the trimmed-front part is nonempty.
    let mut b: usize = n;
    while b > a && char_is_space(s.get_char(b - 1))
        invariant
            a <= b <= n,
            n == s@.len(),
            forall|i: int| b <= i < n ==> is_space(s@[i]),
        decreases b,
    {
        b = b - 1;
    }
    proof {
        assert(f == s@.subrange(a as int, n as int));
        assert(forall|i: int| b - a <= i < f.len() ==> is_space(f[i]));
        assert(b > a ==> !is_space(f[b - a - 1]));
        lemma_trim_back_subrange(f, b - a);
        assert(f.subrange(0, b - a) =~= s@.subrange(a as int, b as int));
    }
    let r = s.substring_char(a, b);
    r.to_owned()
}

/// Compare two strings by content.
pub fn str_eq(a: &str, b: &str) -> (r: bool)
    ensures
        r == (a@ == b@),
{
    let n = a.unicode_len();
    let m = b.unicode_len();
    if n != m {
        return false;
    }
    let mut i: usize = 0;
    while i < n
        invariant
            0 <= i <= n,
            n == a@.len(),
            n == b@.len(),
            forall|j: int| 0 <= j < i ==> a@[j] == b@[j],
        decreases n - i,
    {
        if a.get_char(i) != b.get_char(i) {
            return false;
        }
        i = i + 1;
    }
    proof {
        assert(a@ =~= b@);
    }
    true
}

/// Does `s@.subrange(from, to)` read exactly as `w`?
pub fn range_eq(s: &str, from: usize, to: usize, w: &str) -> (r: bool)
    requires
        from <= to <= s@.len(),
    ensures
        r == (s@.subrange(from as int, to as int) == w@),
{
    let m = w.unicode_len();
    if to - from != m {
        proof {
            assert(s@.subrange(from as int, to as int).len() == to - from);
        }
        return false;
    }
    let mut i: usize = 0;
    while i < m
        invariant
            0 <= i <= m,
            m == w@.len(),
            from <= to <= s@.len(),
            to - from == m,
            forall|j: int| 0 <= j < i ==> s@[from + j] == w@[j],
        decreases m - i,
    {
        if s.get_char(from + i) != w.get_char(i) {
            proof {
                assert(s@.subrange(from as int, to as int)[i as int] == s@[from + i]);
            }
            return false;
        }
        i = i + 1;
    }
    proof {
        assert(s@.subrange(from as int, to as int) =~= w@);
    }
    true
}

/// `w` occurs somewhere in `s` as a contiguous substring.
pub open spec fn contains_sub(s: Seq<char>, w: Seq<char>) -> bool {
    exists|i: int| 0 <= i && i + w.len() <= s.len() && #[trigger] s.subrange(i, i + w.len()) == w
}

pub fn str_contains(s: &str, w: &str) -> (r: bool)
    ensures
        r == contains_sub(s@, w@),
{
    let n = s.unicode_len();
    let m = w.unicode_len();
    if m > n {
        return false;
    }
    if m == 0 {
        proof {
            assert(s@.subrange(0, 0 + w@.len() as int) =~= w@);
        }
        return true;
    }
    let mut i: usize = 0;
    while i <= n - m
        invariant
            0 <= i <= n - m + 1,
            0 < m <= n,
            n == s@.len(),
            m == w@.len(),
            forall|k: int| 0 <= k < i ==> #[trigger] s@.subrange(k, k + w@.len()) != w@,
        decreases n - i,
    {
        if range_eq(s, i, i + m, w) {
            return true;
        }
        i = i + 1;
    }
    false
}

/// `s` starts with the prefix `p`.
pub open spec fn starts_with(s: Seq<char>, p: Seq<char>) -> bool {
    p.len() <= s.len() && s.subrange(0, p.len() as int) == p
}

pub fn str_starts_with(s: &str, p: &str) -> (r: bool)
    ensures
        r == starts_with(s@, p@),
{
    let n = s.unicode_len();
    let m = p.unicode_len();
    if m > n {
        return false;
    }
    range_eq(s, 0, m, p)
}

/// The characters of `s` from `i` (inclusive) to `j` (exclusive) form one
/// maximal whitespace-free word of `s`.
pub open spec fn word_at(s: Seq<char>, i: int, j: int) -> bool {
    &&& 0 <= i < j <= s.len()
    &&& (i == 0 || is_space(s[i - 1]))
    &&& (j == s.len() || is_space(s[j]))
    &&& forall|k: int| i <= k < j ==> !is_space(s[k])
}

/// `w` occurs in `s` as a whole whitespace-separated word.
pub open spec fn has_word(s: Seq<char>, w: Seq<char>) -> bool {
    exists|i: int, j: int| word_at(s, i, j) && #[trigger] s.subrange(i, j) == w
}

/// Scan the whitespace-separated words of `s` for `w`.
pub fn str_has_word(s: &str, w: &str) -> (r: bool)
    ensures
        r == has_word(s@, w@),
{
    let n = s.unicode_len();
    let mut i: usize = 0;
    while i < n
        invariant
            0 <= i <= n,
            n == s@.len(),
            forall|a: int, b: int| word_at(s@, a, b) && a < i ==> #[trigger] s@.subrange(a, b)
                != w@,
            i < n ==> (i == 0 || is_space(s@[i - 1])),
        decreases n - i,
    {
        if char_is_space(s.get_char(i)) {
            i = i + 1;
        } else {
            // A word starts at i; find its end.
            let mut j: usize = i;
            while j < n && !char_is_space(s.get_char(j))
                invariant
                    i <= j <= n,
                    n == s@.len(),
                    forall|k: int| i <= k < j ==> !is_space(s@[k]),
                decreases n - j,
            {
                j = j + 1;
            }
            proof {
                assert(word_at(s@, i as int, j as int));
            }
            if range_eq(s, i, j, w) {
                return true;
            }
            proof {
                // Any word position starting at or before j in fact starts at
                // or before i, and a start strictly inside (i, j) is
                // impossible because the character before it is not
                // whitespace; a start at i must end exactly at j.
                assert forall|a: int, b: int| word_at(s@, a, b) && a < j implies #[trigger] s@
                    .subrange(a, b) != w@ by {
                    if a >= i {
                        if a > i {
                            assert(!is_space(s@[a - 1]));
                            assert(false);
                        } else {
                            // a == i: the end of this word is the first
                            // whitespace position at or after i, which is j.
                            if b < j {
                                assert(is_space(s@[b]));
                                assert(false);
                            }
                            if b > j {
                                assert(!is_space(s@[j as int]));
                                assert(j < s@.len() ==> is_space(s@[j as int]));
                                assert(false);
                            }
                        }
                    }
                }
            }
            if j < n {
                // The character at j is whitespace; step past it so the next
                // scan position again follows a whitespace boundary.
                i = j + 1;
            } else {
                i = j;
            }
        }
    }
    false
}

/// What `char::to_uppercase` yields for a character: its full Unicode
/// uppercase mapping, which may be more than one character. A function of
/// the character alone.
pub uninterp spec fn unicode_upper(c: char) -> Seq<char>;

/// Relies on `char::to_uppercase`: the Unicode uppercase mapping of the
/// character, depending on the character alone.
#[verifier::external_body]
pub(crate) fn to_unicode_upper(c: char) -> (r: Vec<char>)
    ensures
        r@ == unicode_upper(c),
{
    c.to_uppercase().collect()
}

/// ASCII uppercase letters map to lowercase; everything else is unchanged.
pub open spec fn lower_char(c: char) -> char {
    if 'A' <= c <= 'Z' {
        ((c as u8) + 32) as char
    } else {
        c
    }
}

pub fn to_lower_char(c: char) -> (r: char)
    ensures
        r == lower_char(c),
{
    if 'A' <= c && c <= 'Z' {
        ((c as u8) + 32) as char
    } else {
        c
    }
}

/// The prefix of `s` that precedes the first occurrence of `c` (all of `s`
/// when `c` does not occur).
pub open spec fn cut_at(s: Seq<char>, c: char) -> Seq<char>
    decreases s.len(),
{
    if s.len() == 0 {
        s
    } else if s[0] == c {
        Seq::empty()
    } else {
        seq![s[0]] + cut_at(s.drop_first(), c)
    }
}

pub proof fn lemma_cut_at_subrange(s: Seq<char>, c: char, k: int)
    requires
        0 <= k <= s.len(),
        forall|i: int| 0 <= i < k ==> s[i] != c,
        k < s.len() ==> s[k] == c,
    ensures
        cut_at(s, c) == s.subrange(0, k),
    decreases s.len(),
{
    if s.len() == 0 {
        assert(cut_at(s, c) =~= s.subrange(0, 0));
    } else if k == 0 {
        assert(cut_at(s, c) =~= s.subrange(0, 0));
    } else {
        let t = s.drop_first();
        lemma_cut_at_subrange(t, c, k - 1);
        assert(seq![s[0]] + t.subrange(0, k - 1) =~= s.subrange(0, k));
    }
}

/// The prefix of `s` before the first occurrence of `c`.
pub fn str_cut_at(s: &str, c: char) -> (r: String)
    ensures
        r@ == cut_at(s@, c),
{
    let n = s.unicode_len();
    let mut k: usize = 0;
    while k < n && s.get_char(k) != c
        invariant
            0 <= k <= n,
            n == s@.len(),
            forall|i: int| 0 <= i < k ==> s@[i] != c,
        decreases n - k,
    {
        k = k + 1;
    }
    proof {
        lemma_cut_at_subrange(s@, c, k as int);
    }
    let r = s.substring_char(0, k);
    r.to_owned()
}

/// The position of the first occurrence of `c` in `s` at or after `from`
/// (`s@.len()` when there is none).
pub fn find_char(s: &str, from: usize, c: char) -> (q: usize)
    requires
        from <= s@.len(),
    ensures
        from <= q <= s@.len(),
        forall|i: int| from <= i < q ==> s@[i] != c,
        q < s@.len() ==> s@[q as int] == c,
{
    let n = s.unicode_len();
    let mut q: usize = from;
    while q < n && s.get_char(q) != c
        invariant
            from <= q <= n,
            n == s@.len(),
            forall|i: int| from <= i < q ==> s@[i] != c,
        decreases n - q,
    {
        q = q + 1;
    }
    q
}

/// The decimal digit character for `d`.
pub open spec fn dec_digit(d: int) -> char {
    (48 + d) as char
}

/// The decimal rendering of `n`, most significant digit first.
pub open spec fn dec_str(n: nat) -> Seq<char>
    decreases n,
{
    if n < 10 {
        seq![dec_digit(n as int)]
    } else {
        dec_str(n / 10).push(dec_digit((n % 10) as int))
    }
}

/// Render `n` in decimal.
pub fn u64_to_string(n: u64) -> (r: String)
    ensures
        r@ == dec_str(n as nat),
{
    let mut m: u64 = n;
    let mut buf: Vec<char> = Vec::new();
    loop
        invariant_except_break
            m == 0 ==> (buf@.len() == 0 && n == 0),
            m > 0 ==> dec_str(n as nat) == dec_str(m as nat) + buf@.reverse(),
        ensures
            dec_str(n as nat) == buf@.reverse(),
        decreases m,
    {
        let ghost pre_m = m as nat;
        let ghost pre_buf = buf@;
        let d: u64 = m % 10;
        let digit: char = ((48 + d as u8)) as char;
        proof {
            assert(digit == dec_digit((pre_m % 10) as int));
        }
        buf.push(digit);
        m = m / 10;
        proof {
            assert(buf@.reverse() =~= seq![dec_digit((pre_m % 10) as int)] + pre_buf.reverse());
            if pre_m == 0 {
                assert(dec_str(n as nat) =~= buf@.reverse());
            } else if pre_m < 10 {
                assert(dec_str(pre_m) =~= seq![dec_digit((pre_m % 10) as int)]);
                assert(dec_str(n as nat) =~= buf@.reverse());
            } else {
                assert(dec_str(pre_m) == dec_str(pre_m / 10).push(dec_digit((pre_m % 10) as int)));
                assert(dec_str(pre_m / 10) + buf@.reverse() =~= dec_str(pre_m)
                    + pre_buf.reverse());
                assert(dec_str(n as nat) == dec_str((pre_m / 10) as nat) + buf@.reverse());
            }
        }
        if m == 0 {
            break;
        }
    }
    // Reverse the digits into their final order.
    let mut out: Vec<char> = Vec::new();
    let mut i: usize = buf.len();
    while i > 0
        invariant
            0 <= i <= buf@.len(),
            out@ =~= buf@.subrange(i as int, buf@.len() as int).reverse(),
        decreases i,
    {
        i = i - 1;
        out.push(buf[i]);
        proof {
            assert(out@ =~= buf@.subrange(i as int, buf@.len() as int).reverse());
        }
    }
    proof {
        assert(out@ =~= buf@.reverse());
    }
    string_from_chars(&out)
}

/// Relies on `String::push`: appends the given character to the end of the
/// string.
#[verifier::external_body]
fn push_char(s: &mut String, c: char)
    ensures
        final(s)@ == old(s)@.push(c),
{
    s.push(c);
}

/// Build a string holding exactly the characters of `v`.
pub fn string_from_chars(v: &Vec<char>) -> (r: String)
    ensures
        r@ == v@,
{
    let mut r = String::new();
    let mut i: usize = 0;
    while i < v.len()
        invariant
            0 <= i <= v@.len(),
            r@ =~= v@.subrange(0, i as int),
        decreases v@.len() - i,
    {
        push_char(&mut r, v[i]);
        i = i + 1;
        proof {
            assert(r@ =~= v@.subrange(0, i as int));
        }
    }
    proof {
        assert(r@ =~= v@);
    }
    r
}

} // verus!
