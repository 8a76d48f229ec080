//! Character-level string helpers shared by the formatting and guard logic.

use vstd::prelude::*;

verus! {

/// Appends `tail` to `s`.
pub(crate) fn push_str(s: &mut String, tail: &str)
    ensures
        final(s)@ == old(s)@ + tail@,
{
    s.append(tail)
}

/// Appends one character to `s` (std `String::push`). Claimed: the text
/// becomes the old text followed by `c`.
#[verifier::external_body]
pub(crate) fn push_char(s: &mut String, c: char)
    ensures
        final(s)@ == old(s)@.push(c),
{
    s.push(c)
}

/// The characters of `s`, in order.
pub fn chars_of(s: &str) -> (r: Vec<char>)
    ensures
        r@ == s@,
{
    let mut r: Vec<char> = Vec::new();
    for c in it: s.chars()
        invariant
            r@ == it.seq().take(it.index() as int),
            it.seq() == s@,
    {
        r.push(c);
    }
    r
}


/// Copies a string, keeping its characters.
pub fn copy_string(s: &String) -> (r: String)
    ensures
        r@ == s@,
{
    s.clone()
}

/// Whether two strings hold the same characters.
pub fn same_text(a: &str, b: &str) -> (r: bool)
    ensures
        r == (a@ == b@),
{
    let ca = chars_of(a);
    let cb = chars_of(b);
    if ca.len() != cb.len() {
        return false;
    }
    let mut i: usize = 0;
    while i < ca.len()
        invariant
            ca@ == a@,
            cb@ == b@,
            ca.len() == cb.len(),
            i <= ca.len(),
            forall|j: int| 0 <= j < i ==> ca@[j] == cb@[j],
        decreases ca.len() - i,
    {
        if ca[i] != cb[i] {
            return false;
        }
        i = i + 1;
    }
    assert(ca@ =~= cb@);
    true
}


/// Whether `s` starts with `prefix`.
pub fn starts_with(s: &str, prefix: &str) -> (r: bool)
    ensures
        r == prefix@.is_prefix_of(s@),
{
    let cs = chars_of(s);
    let cp = chars_of(prefix);
    if cp.len() > cs.len() {
        return false;
    }
    let mut i: usize = 0;
    while i < cp.len()
        invariant
            cs@ == s@,
            cp@ == prefix@,
            cp.len() <= cs.len(),
            i <= cp.len(),
            forall|j: int| 0 <= j < i ==> cs@[j] == cp@[j],
        decreases cp.len() - i,
    {
        if cs[i] != cp[i] {
            assert(cs@.take(cp@.len() as int)[i as int] != cp@[i as int]);
            return false;
        }
        i = i + 1;
    }
    assert(cs@.take(cp@.len() as int) =~= cp@);
    true
}


/// The character of a decimal digit.
pub open spec fn digit_char(d: nat) -> char {
    (48 + d) as char
}

/// The decimal representation of a natural number, without leading zeros.
pub open spec fn decimal(n: nat) -> Seq<char>
    decreases n,
{
    if n < 10 {
        seq![digit_char(n)]
    } else {
        decimal(n / 10).push(digit_char(n % 10))
    }
}

/// The decimal representation of a signed number.
pub open spec fn signed_decimal(n: int) -> Seq<char> {
    if n < 0 {
        seq!['-'] + decimal((-n) as nat)
    } else {
        decimal(n as nat)
    }
}

fn digit(d: u64) -> (c: char)
    requires
        d < 10,
    ensures
        c == digit_char(d as nat),
{
    let b: u8 = 48u8 + (d as u8);
    b as char
}

/// Writes `n` in decimal.
pub fn u64_decimal(n: u64) -> (s: String)
    ensures
        s@ == decimal(n as nat),
    decreases n,
{
    if n < 10 {
        let mut s = String::new();
        push_char(&mut s, digit(n));
        s
    } else {
        let mut s = u64_decimal(n / 10);
        push_char(&mut s, digit(n % 10));
        s
    }
}

/// Writes `n` in decimal, with a leading `-` when negative.
pub fn i64_decimal(n: i64) -> (s: String)
    ensures
        s@ == signed_decimal(n as int),
{
    if n < 0 {
        let magnitude: u64 = if n == i64::MIN {
            9_223_372_036_854_775_808u64
        } else {
            (-n) as u64
        };
        let mut s = String::new();
        push_char(&mut s, '-');
        let digits = u64_decimal(magnitude);
        push_str(&mut s, digits.as_str());
        assert(s@ =~= seq!['-'] + decimal((-(n as int)) as nat));
        s
    } else {
        u64_decimal(n as u64)
    }
}


/// ASCII lowercase of one character; other characters stay as they are.
pub open spec fn ascii_lower(c: char) -> char {
    if 'A' <= c && c <= 'Z' {
        ((c as u32) + 32) as char
    } else {
        c
    }
}

/// ASCII lowercase of a text (std `str::to_ascii_lowercase`).
pub open spec fn ascii_lowercase_of(s: Seq<char>) -> Seq<char> {
    s.map_values(|c: char| ascii_lower(c))
}

/// Lowercases the ASCII letters of `s`.
pub fn ascii_lowercase(s: &str) -> (r: String)
    ensures
        r@ == ascii_lowercase_of(s@),
{
    let cs = chars_of(s);
    let mut r = String::new();
    let mut i: usize = 0;
    while i < cs.len()
        invariant
            cs@ == s@,
            i <= cs.len(),
            r@ == ascii_lowercase_of(s@.take(i as int)),
        decreases cs.len() - i,
    {
        let c = cs[i];
        let lower = if 'A' <= c && c <= 'Z' {
            let b: u8 = (c as u8) + 32;
            b as char
        } else {
            c
        };
        push_char(&mut r, lower);
        assert(s@.take(i + 1) =~= s@.take(i as int).push(c));
        assert(ascii_lowercase_of(s@.take(i + 1)) =~= ascii_lowercase_of(s@.take(i as int)).push(lower));
        i = i + 1;
    }
    assert(s@.take(cs.len() as int) =~= s@);
    r
}


/// Bytes taken by one character in UTF-8.
pub open spec fn utf8_width(c: char) -> nat {
    if (c as u32) < 0x80 {
        1
    } else if (c as u32) < 0x800 {
        2
    } else if (c as u32) < 0x10000 {
        3
    } else {
        4
    }
}

/// Bytes taken by a text in UTF-8 (std `str::len`).
pub open spec fn utf8_len(s: Seq<char>) -> nat
    decreases s.len(),
{
    if s.len() == 0 {
        0
    } else {
        utf8_len(s.drop_last()) + utf8_width(s.last())
    }
}

/// The longest prefix of `s` whose UTF-8 encoding takes at most `max` bytes,
/// that is, `s` cut at the last character boundary at or before byte `max`.
pub open spec fn prefix_within(s: Seq<char>, max: nat) -> Seq<char>
    decreases s.len(),
{
    if utf8_len(s) <= max || s.len() == 0 {
        s
    } else {
        prefix_within(s.drop_last(), max)
    }
}

pub proof fn lemma_utf8_len_take_mono(s: Seq<char>, j: int, k: int)
    requires
        0 <= j <= k <= s.len(),
    ensures
        utf8_len(s.take(j)) <= utf8_len(s.take(k)),
    decreases k - j,
{
    if j < k {
        lemma_utf8_len_take_mono(s, j, k - 1);
        assert(s.take(k).drop_last() =~= s.take(k - 1));
    }
}

pub proof fn lemma_prefix_within_is_take(s: Seq<char>, max: nat, i: int)
    requires
        0 <= i <= s.len(),
        utf8_len(s.take(i)) <= max,
        i < s.len() ==> utf8_len(s.take(i + 1)) > max,
    ensures
        prefix_within(s, max) == s.take(i),
    decreases s.len(),
{
    if i == s.len() {
        assert(s.take(i) =~= s);
    } else {
        lemma_utf8_len_take_mono(s, i + 1, s.len() as int);
        assert(s.take(s.len() as int) =~= s);
        assert(utf8_len(s) > max);
        let d = s.drop_last();
        assert(d.take(i) =~= s.take(i));
        if i + 1 < s.len() {
            assert(d.take(i + 1) =~= s.take(i + 1));
        }
        lemma_prefix_within_is_take(d, max, i);
    }
}

fn char_width(c: char) -> (w: usize)
    ensures
        w == utf8_width(c),
{
    let n = c as u32;
    if n < 0x80 {
        1
    } else if n < 0x800 {
        2
    } else if n < 0x10000 {
        3
    } else {
        4
    }
}

/// The number of bytes of `s` in UTF-8.
pub fn byte_len(s: &str) -> (n: usize)
    requires
        utf8_len(s@) <= usize::MAX,
    ensures
        n == utf8_len(s@),
{
    let cs = chars_of(s);
    let mut n: usize = 0;
    let mut i: usize = 0;
    while i < cs.len()
        invariant
            cs@ == s@,
            i <= cs.len(),
            n == utf8_len(s@.take(i as int)),
            utf8_len(s@) <= usize::MAX,
        decreases cs.len() - i,
    {
        proof {
            lemma_utf8_len_take_mono(s@, i + 1, s@.len() as int);
            assert(s@.take(s@.len() as int) =~= s@);
            assert(s@.take(i + 1).drop_last() =~= s@.take(i as int));
        }
        n = n + char_width(cs[i]);
        i = i + 1;
    }
    assert(s@.take(cs.len() as int) =~= s@);
    n
}

/// `s` cut at the last character boundary at or before byte `max`.
pub fn prefix_within_bytes(s: &str, max: usize) -> (r: String)
    ensures
        r@ == prefix_within(s@, max as nat),
{
    let cs = chars_of(s);
    let mut r = String::new();
    let mut used: usize = 0;
    let mut i: usize = 0;
    while i < cs.len() && char_width(cs[i]) <= max - used
        invariant
            cs@ == s@,
            i <= cs.len(),
            used == utf8_len(s@.take(i as int)),
            used <= max,
            r@ == s@.take(i as int),
        decreases cs.len() - i,
    {
        assert(s@.take(i + 1).drop_last() =~= s@.take(i as int));
        assert(s@.take(i + 1) =~= s@.take(i as int).push(cs[i as int]));
        used = used + char_width(cs[i]);
        push_char(&mut r, cs[i]);
        i = i + 1;
    }
    proof {
        if i < cs.len() {
            assert(s@.take(i + 1).drop_last() =~= s@.take(i as int));
        }
        lemma_prefix_within_is_take(s@, max as nat, i as int);
    }
    r
}

/// Whether the UTF-8 encoding of `s` takes at most `max` bytes.
pub fn fits_in_bytes(s: &str, max: usize) -> (r: bool)
    ensures
        r == (utf8_len(s@) <= max),
{
    let cs = chars_of(s);
    let mut used: usize = 0;
    let mut i: usize = 0;
    while i < cs.len()
        invariant
            cs@ == s@,
            i <= cs.len(),
            used == utf8_len(s@.take(i as int)),
            used <= max,
        decreases cs.len() - i,
    {
        assert(s@.take(i + 1).drop_last() =~= s@.take(i as int));
        let w = char_width(cs[i]);
        if w > max - used {
            proof {
                lemma_utf8_len_take_mono(s@, i + 1, s@.len() as int);
                assert(s@.take(s@.len() as int) =~= s@);
            }
            return false;
        }
        used = used + w;
        i = i + 1;
    }
    assert(s@.take(cs.len() as int) =~= s@);
    true
}


/// Whether `p` occurs in `s` (std `str::contains` with a string pattern).
pub open spec fn occurs_in(s: Seq<char>, p: Seq<char>) -> bool {
    exists|i: int| 0 <= i && i + p.len() <= s.len() && #[trigger] s.subrange(i, i + p.len()) == p
}

fn occurs_at(cs: &Vec<char>, cp: &Vec<char>, i: usize) -> (r: bool)
    requires
        i + cp.len() <= cs.len(),
    ensures
        r == (cs@.subrange(i as int, i + cp.len()) == cp@),
{
    let mut j: usize = 0;
    while j < cp.len()
        invariant
            i + cp.len() <= cs.len(),
            j <= cp.len(),
            forall|k: int| 0 <= k < j ==> cs@[i + k] == cp@[k],
        decreases cp.len() - j,
    {
        if cs[i + j] != cp[j] {
            assert(cs@.subrange(i as int, i + cp.len())[j as int] != cp@[j as int]);
            return false;
        }
        j = j + 1;
    }
    assert(cs@.subrange(i as int, i + cp.len()) =~= cp@);
    true
}

/// Whether `pattern` occurs in `s`.
pub fn has_substring(s: &str, pattern: &str) -> (r: bool)
    ensures
        r == occurs_in(s@, pattern@),
{
    let cs = chars_of(s);
    let cp = chars_of(pattern);
    if cp.len() > cs.len() {
        return false;
    }
    if cp.len() == 0 {
        assert(s@.subrange(0, 0 + pattern@.len() as int) =~= pattern@);
        return true;
    }
    let mut i: usize = 0;
    let last: usize = cs.len() - cp.len();
    while i <= last
        invariant
            cs@ == s@,
            cp@ == pattern@,
            0 < cp.len() <= cs.len(),
            last == cs.len() - cp.len(),
            i <= last + 1,
            forall|k: int| 0 <= k < i ==> #[trigger] cs@.subrange(k, k + cp.len()) != cp@,
        decreases last + 1 - i,
    {
        if occurs_at(&cs, &cp, i) {
            return true;
        }
        i = i + 1;
    }
    false
}

/// Unicode `White_Space` (std `char::is_whitespace`).
pub open spec fn is_white_space(c: char) -> bool {
    let n = c as u32;
    (0x9 <= n && n <= 0xD) || n == 0x20 || n == 0x85 || n == 0xA0 || n == 0x1680 || (0x2000 <= n
        && n <= 0x200A) || n == 0x2028 || n == 0x2029 || n == 0x202F || n == 0x205F || n == 0x3000
}

fn white_space(c: char) -> (r: bool)
    ensures
        r == is_white_space(c),
{
    let n = c as u32;
    (0x9 <= n && n <= 0xD) || n == 0x20 || n == 0x85 || n == 0xA0 || n == 0x1680 || (0x2000 <= n
        && n <= 0x200A) || n == 0x2028 || n == 0x2029 || n == 0x202F || n == 0x205F || n == 0x3000
}

/// `s` without its leading white space.
pub open spec fn trim_front(s: Seq<char>) -> Seq<char>
    decreases s.len(),
{
    if s.len() > 0 && is_white_space(s[0]) {
        trim_front(s.drop_first())
    } else {
        s
    }
}

/// `s` without its trailing white space.
pub open spec fn trim_back(s: Seq<char>) -> Seq<char>
    decreases s.len(),
{
    if s.len() > 0 && is_white_space(s.last()) {
        trim_back(s.drop_last())
    } else {
        s
    }
}

/// `s` without leading and trailing white space (std `str::trim`).
pub open spec fn trimmed(s: Seq<char>) -> Seq<char> {
    trim_back(trim_front(s))
}

proof fn lemma_trim_front_skip(s: Seq<char>, i: int)
    requires
        0 <= i <= s.len(),
        forall|k: int| 0 <= k < i ==> is_white_space(#[trigger] s[k]),
    ensures
        trim_front(s) == trim_front(s.subrange(i, s.len() as int)),
    decreases i,
{
    if i > 0 {
        assert(s.drop_first().subrange(i - 1, s.drop_first().len() as int) =~= s.subrange(i, s.len() as int));
        lemma_trim_front_skip(s.drop_first(), i - 1);
    } else {
        assert(s.subrange(0, s.len() as int) =~= s);
    }
}

proof fn lemma_trim_back_cut(s: Seq<char>, j: int)
    requires
        0 <= j <= s.len(),
        forall|k: int| j <= k < s.len() ==> is_white_space(#[trigger] s[k]),
    ensures
        trim_back(s) == trim_back(s.subrange(0, j)),
    decreases s.len() - j,
{
    if j < s.len() {
        assert(s.drop_last().subrange(0, j) =~= s.subrange(0, j));
        lemma_trim_back_cut(s.drop_last(), j);
    } else {
        assert(s.subrange(0, j) =~= s);
    }
}

/// Removes leading and trailing white space.
pub fn trim_text(s: &str) -> (r: String)
    ensures
        r@ == trimmed(s@),
{
    let cs = chars_of(s);
    let mut a: usize = 0;
    while a < cs.len() && white_space(cs[a])
        invariant
            cs@ == s@,
            a <= cs.len(),
            forall|k: int| 0 <= k < a ==> is_white_space(#[trigger] cs@[k]),
        decreases cs.len() - a,
    {
        a = a + 1;
    }
    let ghost front = s@.subrange(a as int, s@.len() as int);
    proof {
        lemma_trim_front_skip(s@, a as int);
        if a < cs.len() {
            assert(front[0] == cs@[a as int]);
        }
        assert(trim_front(front) == front);
    }
    let mut b: usize = cs.len();
    while b > a && white_space(cs[b - 1])
        invariant
            cs@ == s@,
            a <= b <= cs.len(),
            front == s@.subrange(a as int, s@.len() as int),
            forall|k: int| b - a <= k < front.len() ==> is_white_space(#[trigger] front[k]),
        decreases b,
    {
        b = b - 1;
    }
    proof {
        lemma_trim_back_cut(front, b - a);
        let cut = front.subrange(0, b - a);
        if b > a {
            assert(cut.last() == cs@[b - 1]);
        }
        assert(trim_back(cut) == cut);
    }
    let mut r = String::new();
    let mut i: usize = a;
    while i < b
        invariant
            cs@ == s@,
            a <= i <= b,
            b <= cs.len(),
            r@ == s@.subrange(a as int, i as int),
        decreases b - i,
    {
        push_char(&mut r, cs[i]);
        assert(s@.subrange(a as int, i + 1) =~= s@.subrange(a as int, i as int).push(cs@[i as int]));
        i = i + 1;
    }
    assert(r@ =~= front.subrange(0, b - a));
    r
}


/// The bytes of two texts put together are the bytes of each.
pub proof fn lemma_utf8_len_concat(a: Seq<char>, b: Seq<char>)
    ensures
        utf8_len(a + b) == utf8_len(a) + utf8_len(b),
    decreases b.len(),
{
    if b.len() > 0 {
        lemma_utf8_len_concat(a, b.drop_last());
        assert((a + b).drop_last() =~= a + b.drop_last());
        assert((a + b).last() == b.last());
    } else {
        assert(a + b =~= a);
    }
}

/// What [`prefix_within`] keeps fits in its bytes.
pub proof fn lemma_prefix_within_fits(s: Seq<char>, max: nat)
    ensures
        utf8_len(prefix_within(s, max)) <= max,
        prefix_within(s, max).is_prefix_of(s),
    decreases s.len(),
{
    if utf8_len(s) <= max || s.len() == 0 {
    } else {
        lemma_prefix_within_fits(s.drop_last(), max);
        let p = prefix_within(s.drop_last(), max);
        assert forall|i: int| 0 <= i < p.len() implies p[i] == s[i] by {
            assert(p[i] == s.drop_last()[i]);
        }
    }
}


/// A text of ASCII characters takes a byte each.
pub proof fn lemma_ascii_utf8_len(s: Seq<char>)
    requires
        forall|i: int| 0 <= i < s.len() ==> (#[trigger] s[i] as u32) < 0x80,
    ensures
        utf8_len(s) == s.len(),
    decreases s.len(),
{
    if s.len() > 0 {
        assert forall|i: int| 0 <= i < s.drop_last().len() implies (#[trigger] s.drop_last()[i] as u32) < 0x80 by {
            assert(s.drop_last()[i] == s[i]);
        }
        lemma_ascii_utf8_len(s.drop_last());
        assert((s.last() as u32) < 0x80);
    }
}

} // verus!
