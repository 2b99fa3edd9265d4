//! Character-level helpers shared by the placement-list decoders: splitting
//! on a separator, trimming, and recognising numerals.
use vstd::prelude::*;
use vstd::slice::{slice_subrange, slice_to_vec};

verus! {

/// Relies on `str::chars` collected into a `Vec`: the characters in order.
#[verifier::external_body]
pub(crate) fn chars_of(s: &str) -> (r: Vec<char>)
    ensures
        r@ == s@,
{
    s.chars().collect()
}

/// Relies on `String`'s `FromIterator<char>`: the string holds the characters
/// in order.
#[verifier::external_body]
pub(crate) fn string_of(v: &[char]) -> (r: String)
    ensures
        r@ == v@,
{
    v.iter().collect()
}

/// Copies `v[a..b]`.
pub fn copy_range(v: &[char], a: usize, b: usize) -> (r: Vec<char>)
    requires
        a <= b <= v@.len(),
    ensures
        r@ == v@.subrange(a as int, b as int),
{
    slice_to_vec(slice_subrange(v, a, b))
}

pub open spec fn is_space(c: char) -> bool {
    c == ' ' || c == '\t' || c == '\r'
}

/// `s` without its leading white space.
pub open spec fn trim_start(s: Seq<char>) -> Seq<char>
    decreases s.len(),
{
    if s.len() > 0 && is_space(s[0]) {
        trim_start(s.drop_first())
    } else {
        s
    }
}

/// `s` without its trailing white space.
pub open spec fn trim_end(s: Seq<char>) -> Seq<char>
    decreases s.len(),
{
    if s.len() > 0 && is_space(s.last()) {
        trim_end(s.drop_last())
    } else {
        s
    }
}

pub open spec fn trim(s: Seq<char>) -> Seq<char> {
    trim_end(trim_start(s))
}

/// `s` with the white space at both of its ends removed.
pub fn trim_chars(s: &[char]) -> (r: Vec<char>)
    ensures
        r@ == trim(s@),
{
    let mut a: usize = 0;
    assert(s@.subrange(0, s@.len() as int) =~= s@);
    while a < s.len() && is_space_exec(s[a])
        invariant
            a <= s@.len(),
            trim_start(s@) == trim_start(s@.subrange(a as int, s@.len() as int)),
        decreases s@.len() - a,
    {
        assert(s@.subrange(a as int + 1, s@.len() as int) =~= s@.subrange(
            a as int,
            s@.len() as int,
        ).drop_first());
        a = a + 1;
    }
    assert(trim_start(s@) == s@.subrange(a as int, s@.len() as int));
    let mut b: usize = s.len();
    while b > a && is_space_exec(s[b - 1])
        invariant
            a <= b <= s@.len(),
            trim(s@) == trim_end(s@.subrange(a as int, b as int)),
        decreases b,
    {
        assert(s@.subrange(a as int, b - 1) =~= s@.subrange(a as int, b as int).drop_last());
        b = b - 1;
    }
    copy_range(s, a, b)
}

pub fn is_space_exec(c: char) -> (r: bool)
    ensures
        r == is_space(c),
{
    c == ' ' || c == '\t' || c == '\r'
}

/// The pieces of the first `n` characters of `s` between separators: the
/// finished pieces, and the piece still being read.
pub open spec fn split_prefix(s: Seq<char>, sep: char, n: nat) -> (Seq<Seq<char>>, Seq<char>)
    decreases n,
{
    if n == 0 {
        (seq![], seq![])
    } else {
        let (done, cur) = split_prefix(s, sep, (n - 1) as nat);
        if s[n - 1] == sep {
            (done.push(cur), seq![])
        } else {
            (done, cur.push(s[n - 1]))
        }
    }
}

/// `s` cut at every `sep`; `k` separators give `k + 1` pieces.
pub open spec fn split(s: Seq<char>, sep: char) -> Seq<Seq<char>> {
    let (done, cur) = split_prefix(s, sep, s.len());
    done.push(cur)
}

pub fn split_chars(s: &[char], sep: char) -> (r: Vec<Vec<char>>)
    ensures
        r@.map_values(|p: Vec<char>| p@) == split(s@, sep),
{
    let mut out: Vec<Vec<char>> = Vec::new();
    let mut start: usize = 0;
    let mut i: usize = 0;
    while i < s.len()
        invariant
            start <= i <= s@.len(),
            split_prefix(s@, sep, i as nat).0 == out@.map_values(|p: Vec<char>| p@),
            split_prefix(s@, sep, i as nat).1 == s@.subrange(start as int, i as int),
        decreases s@.len() - i,
    {
        if s[i] == sep {
            let piece = copy_range(s, start, i);
            out.push(piece);
            start = i + 1;
            assert(out@.map_values(|p: Vec<char>| p@) =~= split_prefix(s@, sep, i as nat).0.push(
                piece@,
            ));
        } else {
            assert(s@.subrange(start as int, i + 1) =~= s@.subrange(start as int, i as int).push(
                s@[i as int],
            ));
        }
        i = i + 1;
    }
    let last = copy_range(s, start, i);
    out.push(last);
    assert(out@.map_values(|p: Vec<char>| p@) =~= split(s@, sep));
    out
}

pub open spec fn is_digit(c: char) -> bool {
    '0' <= c && c <= '9'
}

pub open spec fn all_digits(s: Seq<char>) -> bool {
    forall|i: int| 0 <= i < s.len() ==> is_digit(#[trigger] s[i])
}

/// The value of a string of decimal digits.
pub open spec fn digits_value(s: Seq<char>) -> nat
    decreases s.len(),
{
    if s.len() == 0 {
        0
    } else {
        digits_value(s.drop_last()) * 10 + ((s.last() as u32) - ('0' as u32)) as nat
    }
}

proof fn lemma_digits_value_grows(s: Seq<char>, j: int, k: int)
    requires
        0 <= j <= k <= s.len(),
        all_digits(s),
    ensures
        digits_value(s.take(j)) <= digits_value(s.take(k)),
    decreases k - j,
{
    if j < k {
        lemma_digits_value_grows(s, j, k - 1);
        assert(s.take(k).drop_last() =~= s.take(k - 1));
    }
}

/// A non-empty run of decimal digits whose value fits in `u32`.
pub open spec fn is_u32_numeral(s: Seq<char>) -> bool {
    s.len() > 0 && all_digits(s) && digits_value(s) <= u32::MAX
}

/// Reads an unsigned decimal `u32`; `None` unless `is_u32_numeral`.
pub fn parse_u32(s: &[char]) -> (r: Option<u32>)
    ensures
        r matches Some(v) ==> is_u32_numeral(s@) && v == digits_value(s@),
        r is None ==> !is_u32_numeral(s@),
{
    if s.len() == 0 {
        return None;
    }
    let mut v: u32 = 0;
    let mut i: usize = 0;
    while i < s.len()
        invariant
            i <= s@.len(),
            all_digits(s@.take(i as int)),
            v == digits_value(s@.take(i as int)),
        decreases s@.len() - i,
    {
        let c = s[i];
        if !('0' <= c && c <= '9') {
            assert(!all_digits(s@));
            return None;
        }
        let d: u32 = (c as u32) - ('0' as u32);
        assert(s@.take(i + 1).drop_last() =~= s@.take(i as int));
        if v > 429496729 || (v == 429496729 && d > 5) {
            proof {
                if all_digits(s@) {
                    lemma_digits_value_grows(s@, i + 1, s@.len() as int);
                    assert(s@.take(s@.len() as int) =~= s@);
                }
            }
            return None;
        }
        v = v * 10 + d;
        i = i + 1;
        assert(all_digits(s@.take(i as int)));
    }
    assert(s@.take(s@.len() as int) =~= s@);
    Some(v)
}

/// An integer numeral: an optional sign, then one or more digits.
pub open spec fn is_integer_numeral(s: Seq<char>) -> bool {
    if s.len() > 0 && (s[0] == '-' || s[0] == '+') {
        s.len() > 1 && all_digits(s.drop_first())
    } else {
        s.len() > 0 && all_digits(s)
    }
}

pub fn all_digits_from(s: &[char], start: usize) -> (r: bool)
    requires
        start <= s@.len(),
    ensures
        r == all_digits(s@.subrange(start as int, s@.len() as int)),
{
    let mut i: usize = start;
    while i < s.len()
        invariant
            start <= i <= s@.len(),
            forall|k: int| start <= k < i ==> is_digit(#[trigger] s@[k]),
        decreases s@.len() - i,
    {
        if !('0' <= s[i] && s[i] <= '9') {
            assert(!is_digit(s@.subrange(start as int, s@.len() as int)[i - start]));
            return false;
        }
        i = i + 1;
    }
    assert forall|k: int| 0 <= k < s@.len() - start implies is_digit(
        #[trigger] s@.subrange(start as int, s@.len() as int)[k],
    ) by {
        assert(s@.subrange(start as int, s@.len() as int)[k] == s@[start + k]);
    }
    true
}

pub fn is_integer_numeral_exec(s: &[char]) -> (r: bool)
    ensures
        r == is_integer_numeral(s@),
{
    if s.len() > 0 && (s[0] == '-' || s[0] == '+') {
        assert(s@.subrange(1, s@.len() as int) =~= s@.drop_first());
        s.len() > 1 && all_digits_from(s, 1)
    } else {
        assert(s@.subrange(0, s@.len() as int) =~= s@);
        s.len() > 0 && all_digits_from(s, 0)
    }
}

/// States of the recogniser of unsigned decimal numerals: digits, an
/// optional fraction, an optional exponent (`12`, `1.`, `.5`, `4.25e-3`).
pub open spec fn numeral_step(state: u8, c: char) -> u8 {
    if is_digit(c) {
        if state == 0 || state == 1 {
            1
        } else if state == 2 || state == 3 || state == 4 {
            if state == 4 { 4 } else { 3 }
        } else if state == 5 || state == 6 || state == 7 {
            7
        } else {
            8
        }
    } else if c == '.' {
        if state == 0 { 2 } else if state == 1 { 4 } else { 8 }
    } else if c == 'e' || c == 'E' {
        if state == 1 || state == 3 || state == 4 { 5 } else { 8 }
    } else if c == '-' || c == '+' {
        if state == 5 { 6 } else { 8 }
    } else {
        8
    }
}

/// The recogniser's state after the first `n` characters of `s`.
pub open spec fn numeral_state(s: Seq<char>, n: nat) -> u8
    decreases n,
{
    if n == 0 {
        0
    } else {
        numeral_step(numeral_state(s, (n - 1) as nat), s[n - 1])
    }
}

/// An unsigned decimal numeral, as a floating-point literal is written.
pub open spec fn is_unsigned_numeral(s: Seq<char>) -> bool {
    let q = numeral_state(s, s.len());
    q == 1 || q == 3 || q == 4 || q == 7
}

fn numeral_step_exec(state: u8, c: char) -> (r: u8)
    ensures
        r == numeral_step(state, c),
{
    if '0' <= c && c <= '9' {
        if state == 0 || state == 1 {
            1
        } else if state == 2 || state == 3 || state == 4 {
            if state == 4 { 4 } else { 3 }
        } else if state == 5 || state == 6 || state == 7 {
            7
        } else {
            8
        }
    } else if c == '.' {
        if state == 0 { 2 } else if state == 1 { 4 } else { 8 }
    } else if c == 'e' || c == 'E' {
        if state == 1 || state == 3 || state == 4 { 5 } else { 8 }
    } else if c == '-' || c == '+' {
        if state == 5 { 6 } else { 8 }
    } else {
        8
    }
}

/// Whether `s[start..]` is an unsigned decimal numeral.
pub fn is_unsigned_numeral_from(s: &[char], start: usize) -> (r: bool)
    requires
        start <= s@.len(),
    ensures
        r == is_unsigned_numeral(s@.subrange(start as int, s@.len() as int)),
{
    let ghost t = s@.subrange(start as int, s@.len() as int);
    let mut q: u8 = 0;
    let mut i: usize = start;
    while i < s.len()
        invariant
            start <= i <= s@.len(),
            t == s@.subrange(start as int, s@.len() as int),
            q == numeral_state(t, (i - start) as nat),
        decreases s@.len() - i,
    {
        assert(t[i - start] == s@[i as int]);
        q = numeral_step_exec(q, s[i]);
        i = i + 1;
    }
    q == 1 || q == 3 || q == 4 || q == 7
}

} // verus!
