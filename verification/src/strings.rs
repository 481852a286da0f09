//! Verified helpers for working with strings as sequences of characters.
//!
//! Executable code here works on `&str`, `String` and `Vec<char>`; every
//! contract is stated over the corresponding `Seq<char>` views.

use vstd::prelude::*;

verus! {

use vstd::string::StrSliceExecFns;

/// `p` is a prefix of `s`.
pub open spec fn spec_starts_with(s: Seq<char>, p: Seq<char>) -> bool {
    p.len() <= s.len() && s.subrange(0, p.len() as int) == p
}

/// `p` is a suffix of `s`.
pub open spec fn spec_ends_with(s: Seq<char>, p: Seq<char>) -> bool {
    p.len() <= s.len() && s.subrange(s.len() - p.len(), s.len() as int) == p
}

/// `p` occurs somewhere inside `s` as a contiguous run.
pub open spec fn spec_contains(s: Seq<char>, p: Seq<char>) -> bool {
    exists|i: int| 0 <= i && i + p.len() <= s.len() && #[trigger] s.subrange(i, i + p.len()) == p
}

/// Relies on String::push: appends exactly the given character at the end.
#[verifier::external_body]
pub fn push_char(s: &mut String, c: char)
    ensures
        final(s)@ == old(s)@.push(c),
{
    s.push(c);
}

/// Collect the characters of a string slice into a vector.
pub fn to_chars(s: &str) -> (r: Vec<char>)
    ensures
        r@ == s@,
{
    let n = s.unicode_len();
    let mut v: Vec<char> = Vec::new();
    let mut i: usize = 0;
    while i < n
        invariant
            i <= n,
            n == s@.len(),
            v@ == s@.take(i as int),
        decreases n - i,
    {
        let c = s.get_char(i);
        v.push(c);
        i = i + 1;
        assert(v@ =~= s@.take(i as int));
    }
    assert(v@ =~= s@);
    v
}

/// Build a string out of a vector of characters.
pub fn chars_to_string(cs: &Vec<char>) -> (r: String)
    ensures
        r@ == cs@,
{
    let mut s = String::new();
    let mut i: usize = 0;
    while i < cs.len()
        invariant
            i <= cs@.len(),
            s@ == cs@.take(i as int),
        decreases cs@.len() - i,
    {
        push_char(&mut s, cs[i]);
        i = i + 1;
        assert(s@ =~= cs@.take(i as int));
    }
    assert(s@ =~= cs@);
    s
}

/// Character-for-character equality of two string slices.
pub fn str_eq(a: &str, b: &str) -> (r: bool)
    ensures
        r == (a@ == b@),
{
    let na = a.unicode_len();
    let nb = b.unicode_len();
    if na != nb {
        return false;
    }
    let mut i: usize = 0;
    while i < na
        invariant
            i <= na,
            na == a@.len(),
            na == b@.len(),
            forall|j: int| 0 <= j < i ==> a@[j] == b@[j],
        decreases na - i,
    {
        if a.get_char(i) != b.get_char(i) {
            return false;
        }
        i = i + 1;
    }
    assert(a@ =~= b@);
    true
}

/// Equality of a character vector and a string slice.
pub fn chars_eq_str(v: &Vec<char>, s: &str) -> (r: bool)
    ensures
        r == (v@ == s@),
{
    let n = s.unicode_len();
    if v.len() != n {
        return false;
    }
    let mut i: usize = 0;
    while i < n
        invariant
            i <= n,
            n == v@.len(),
            n == s@.len(),
            forall|j: int| 0 <= j < i ==> v@[j] == s@[j],
        decreases n - i,
    {
        if v[i] != s.get_char(i) {
            return false;
        }
        i = i + 1;
    }
    assert(v@ =~= s@);
    true
}

/// Whether the characters of `p` match `v` starting at position `at`.
fn matches_at(v: &Vec<char>, at: usize, p: &str) -> (r: bool)
    requires
        at + p@.len() <= v@.len(),
    ensures
        r == (v@.subrange(at as int, at + p@.len()) == p@),
{
    let n = p.unicode_len();
    let vn = v.len();
    let mut i: usize = 0;
    while i < n
        invariant
            i <= n,
            n == p@.len(),
            vn == v@.len(),
            at + n <= vn,
            forall|j: int| 0 <= j < i ==> v@[at + j] == p@[j],
        decreases n - i,
    {
        if v[at + i] != p.get_char(i) {
            assert(v@.subrange(at as int, at + p@.len())[i as int] != p@[i as int]);
            return false;
        }
        i = i + 1;
    }
    assert(v@.subrange(at as int, at + p@.len()) =~= p@);
    true
}

/// Whether the string slice `p` is a prefix of the character vector `v`.
pub fn starts_with_lit(v: &Vec<char>, p: &str) -> (r: bool)
    ensures
        r == spec_starts_with(v@, p@),
{
    let n = p.unicode_len();
    if n > v.len() {
        return false;
    }
    let r = matches_at(v, 0, p);
    assert(v@.subrange(0, p@.len() as int) == v@.subrange(0, 0 + p@.len() as int));
    r
}

/// Whether the string slice `p` is a suffix of the character vector `v`.
pub fn ends_with_lit(v: &Vec<char>, p: &str) -> (r: bool)
    ensures
        r == spec_ends_with(v@, p@),
{
    let n = p.unicode_len();
    if n > v.len() {
        return false;
    }
    let at = v.len() - n;
    let r = matches_at(v, at, p);
    assert(v@.subrange(v@.len() - p@.len(), v@.len() as int) == v@.subrange(at as int, at + p@.len()));
    r
}

/// Whether the string slice `p` occurs anywhere inside the character vector `v`.
pub fn contains_lit(v: &Vec<char>, p: &str) -> (r: bool)
    ensures
        r == spec_contains(v@, p@),
{
    let n = p.unicode_len();
    if n > v.len() {
        assert(!spec_contains(v@, p@));
        return false;
    }
    if n == 0 {
        assert(v@.subrange(0, 0 + p@.len() as int) =~= p@);
        return true;
    }
    let last = v.len() - n;
    let mut i: usize = 0;
    while i <= last
        invariant
            i <= last + 1,
            last < usize::MAX,
            last + n == v@.len(),
            n == p@.len(),
            forall|j: int| 0 <= j < i ==> #[trigger] v@.subrange(j, j + p@.len()) != p@,
        decreases last + 1 - i,
    {
        if matches_at(v, i, p) {
            return true;
        }
        i = i + 1;
    }
    assert forall|j: int| 0 <= j && j + p@.len() <= v@.len() implies #[trigger] v@.subrange(
        j,
        j + p@.len(),
    ) != p@ by {
        assert(j < i);
    }
    false
}

/// The pieces of `s` cut at every occurrence of `sep`; always at least one
/// piece, and an empty `s` yields one empty piece.
pub open spec fn spec_split(s: Seq<char>, sep: char) -> Seq<Seq<char>>
    decreases s.len(),
{
    if s.len() == 0 {
        seq![Seq::<char>::empty()]
    } else {
        let prev = spec_split(s.drop_last(), sep);
        if s.last() == sep {
            prev.push(Seq::<char>::empty())
        } else {
            prev.update(prev.len() - 1, prev.last().push(s.last()))
        }
    }
}

pub proof fn lemma_split_len(s: Seq<char>, sep: char)
    ensures
        spec_split(s, sep).len() >= 1,
    decreases s.len(),
{
    if s.len() > 0 {
        lemma_split_len(s.drop_last(), sep);
    }
}

/// Split a character vector at every occurrence of `sep`.
pub fn split_char(v: &Vec<char>, sep: char) -> (r: Vec<Vec<char>>)
    ensures
        r.deep_view() == spec_split(v@, sep),
{
    let mut done: Vec<Vec<char>> = Vec::new();
    let mut cur: Vec<char> = Vec::new();
    let mut i: usize = 0;
    assert(v@.take(0) =~= Seq::<char>::empty());
    assert(done.deep_view().push(cur@) =~~= spec_split(v@.take(0), sep));
    while i < v.len()
        invariant
            i <= v@.len(),
            done.deep_view().push(cur@) == spec_split(v@.take(i as int), sep),
        decreases v@.len() - i,
    {
        let ghost prefix = v@.take(i as int);
        let ghost prev = spec_split(prefix, sep);
        let c = v[i];
        i = i + 1;
        assert(v@.take(i as int).drop_last() =~= prefix);
        assert(v@.take(i as int).last() == c);
        proof {
            lemma_split_len(prefix, sep);
            assert(prev.len() - 1 == done.deep_view().len());
            assert(prev.last() == cur@);
        }
        if c == sep {
            done.push(cur);
            cur = Vec::new();
            assert(done.deep_view().push(cur@) =~~= prev.push(Seq::<char>::empty()));
        } else {
            cur.push(c);
            assert(done.deep_view().push(cur@) =~~= prev.update(
                prev.len() - 1,
                prev.last().push(c),
            ));
        }
    }
    assert(v@.take(v@.len() as int) =~= v@);
    done.push(cur);
    assert(done.deep_view() =~~= spec_split(v@, sep));
    done
}

/// A decimal digit.
pub open spec fn spec_is_digit(c: char) -> bool {
    48 <= c as u32 && c as u32 <= 57
}

/// The numeric value of a decimal digit.
pub open spec fn spec_digit_val(c: char) -> u32 {
    (c as u32 - 48) as u32
}

/// The number denoted by a run of decimal digits, most significant first.
pub open spec fn spec_dec_value(s: Seq<char>) -> nat
    decreases s.len(),
{
    if s.len() == 0 {
        0
    } else {
        spec_dec_value(s.drop_last()) * 10 + spec_digit_val(s.last()) as nat
    }
}

pub open spec fn spec_all_digits(s: Seq<char>) -> bool {
    forall|i: int| 0 <= i < s.len() ==> spec_is_digit(s[i])
}

/// What `str::parse::<u32>` makes of a piece, with every failure mapped to 0:
/// an optional leading `+`, then at least one digit, with a value that fits.
pub open spec fn spec_parse_u32_or_zero(s: Seq<char>) -> u32 {
    let t = if s.len() > 0 && s[0] == '+' {
        s.skip(1)
    } else {
        s
    };
    if t.len() > 0 && spec_all_digits(t) && spec_dec_value(t) <= u32::MAX {
        spec_dec_value(t) as u32
    } else {
        0
    }
}

proof fn lemma_dec_value_grows(s: Seq<char>, i: int)
    requires
        0 <= i <= s.len(),
    ensures
        spec_dec_value(s.take(i)) <= spec_dec_value(s),
    decreases s.len() - i,
{
    if i < s.len() {
        lemma_dec_value_grows(s, i + 1);
        assert(s.take(i + 1).drop_last() =~= s.take(i));
        assert(spec_dec_value(s.take(i + 1)) == spec_dec_value(s.take(i)) * 10 + spec_digit_val(
            s.take(i + 1).last(),
        ));
    } else {
        assert(s.take(i) =~= s);
    }
}

fn is_digit(c: char) -> (r: bool)
    ensures
        r == spec_is_digit(c),
{
    let u = c as u32;
    48 <= u && u <= 57
}

/// Parse a piece the way `str::parse::<u32>` would, yielding 0 on failure.
pub fn parse_u32_or_zero(part: &Vec<char>) -> (r: u32)
    ensures
        r == spec_parse_u32_or_zero(part@),
{
    let start: usize = if part.len() > 0 && part[0] == '+' {
        1
    } else {
        0
    };
    let ghost t = if part@.len() > 0 && part@[0] == '+' {
        part@.skip(1)
    } else {
        part@
    };
    assert(t =~= part@.subrange(start as int, part@.len() as int));
    if part.len() == start {
        return 0;
    }
    let mut i: usize = start;
    while i < part.len()
        invariant
            start <= i <= part@.len(),
            start == (if part@.len() > 0 && part@[0] == '+' {
                1int
            } else {
                0int
            }),
            t == part@.subrange(start as int, part@.len() as int),
            forall|j: int| start <= j < i ==> spec_is_digit(part@[j]),
        decreases part@.len() - i,
    {
        if !is_digit(part[i]) {
            assert(!spec_all_digits(t)) by {
                assert(!spec_is_digit(t[i - start]));
            }
            return 0;
        }
        i = i + 1;
    }
    assert(spec_all_digits(t)) by {
        assert forall|j: int| 0 <= j < t.len() implies spec_is_digit(t[j]) by {
            assert(t[j] == part@[j + start]);
        }
    }
    let mut acc: u64 = 0;
    let mut i: usize = start;
    while i < part.len()
        invariant
            start <= i <= part@.len(),
            t == part@.subrange(start as int, part@.len() as int),
            spec_all_digits(t),
            spec_dec_value(t.take(i - start)) <= u32::MAX ==> acc == spec_dec_value(
                t.take(i - start),
            ),
            spec_dec_value(t.take(i - start)) > u32::MAX ==> acc == u32::MAX as u64 + 1,
            acc <= u32::MAX as u64 + 1,
        decreases part@.len() - i,
    {
        assert(spec_is_digit(t[i - start]));
        assert(t[i - start] == part@[i as int]);
        let d = part[i] as u32;
        let dv: u64 = (d - 48) as u64;
        assert(t.take(i + 1 - start).drop_last() =~= t.take(i - start));
        assert(t.take(i + 1 - start).last() == t[i - start]);
        let next = acc * 10 + dv;
        if next > u32::MAX as u64 {
            acc = u32::MAX as u64 + 1;
        } else {
            acc = next;
        }
        i = i + 1;
    }
    assert(t.take(part@.len() - start) =~= t);
    if acc > u32::MAX as u64 {
        0
    } else {
        acc as u32
    }
}

/// The character for a decimal digit value.
pub open spec fn spec_digit_char(d: nat) -> char {
    ((48 + d) as u8) as char
}

/// The decimal rendering of a number, most significant digit first.
pub open spec fn spec_dec_str(n: nat) -> Seq<char>
    decreases n,
{
    if n < 10 {
        seq![spec_digit_char(n)]
    } else {
        spec_dec_str(n / 10).push(spec_digit_char(n % 10))
    }
}

fn digit_char(d: u8) -> (c: char)
    requires
        d < 10,
    ensures
        c == spec_digit_char(d as nat),
{
    (48 + d) as char
}

/// Render a number in decimal.
pub fn u8_to_string(n: u8) -> (r: String)
    ensures
        r@ == spec_dec_str(n as nat),
    decreases n,
{
    if n < 10 {
        let mut s = String::new();
        push_char(&mut s, digit_char(n));
        assert(s@ =~= spec_dec_str(n as nat));
        s
    } else {
        let mut s = u8_to_string(n / 10);
        push_char(&mut s, digit_char(n % 10));
        s
    }
}

} // verus!
