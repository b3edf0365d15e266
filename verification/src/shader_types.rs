//! Reading the text of a compute shader for the host: line comments
//! dropped, the names of its compute functions, its `u32` constants, the
//! buffers it declares after `#[buffer]` markers, the Rust types that hold
//! its values on the host, its constants filled in when the shader is built,
//! and its text with those constants replaced: by values that stand in for
//! them, to check the shader, or by their names, as the host's template.
//!
//! Scalars map to themselves, arrays to Rust arrays (with a length written
//! out, or taken from the shader's `u32` constants, or a slice where the
//! length is only known when the shader is built), atomics to what they
//! hold, and vectors and matrices to the aligned types of the host. Any
//! other name is a type that the shader and the host share by name.

use vstd::prelude::*;

use crate::foreign::string_push;
use crate::text::{decimal, push_decimal, push_str};

verus! {

/// Whether `c` is white space, as `char::is_whitespace` has it.
pub open spec fn is_whitespace(c: char) -> bool {
    ||| '\t' <= c <= '\r'
    ||| c == ' '
    ||| c == '\u{85}'
    ||| c == '\u{a0}'
    ||| c == '\u{1680}'
    ||| '\u{2000}' <= c <= '\u{200a}'
    ||| c == '\u{2028}'
    ||| c == '\u{2029}'
    ||| c == '\u{202f}'
    ||| c == '\u{205f}'
    ||| c == '\u{3000}'
}

/// `s` without the white space it starts with.
pub open spec fn trim_start(s: Seq<char>) -> Seq<char>
    decreases s.len(),
{
    if s.len() > 0 && is_whitespace(s[0]) {
        trim_start(s.drop_first())
    } else {
        s
    }
}

/// `s` without the white space it ends with.
pub open spec fn trim_end(s: Seq<char>) -> Seq<char>
    decreases s.len(),
{
    if s.len() > 0 && is_whitespace(s.last()) {
        trim_end(s.drop_last())
    } else {
        s
    }
}

/// `s` without white space at either end.
pub open spec fn trim(s: Seq<char>) -> Seq<char> {
    trim_end(trim_start(s))
}

/// Trimming the start leaves no more than there was.
pub proof fn lemma_trim_start_len(s: Seq<char>)
    ensures
        trim_start(s).len() <= s.len(),
    decreases s.len(),
{
    if s.len() > 0 && is_whitespace(s[0]) {
        lemma_trim_start_len(s.drop_first());
    }
}

/// Trimming the end leaves no more than there was.
pub proof fn lemma_trim_end_len(s: Seq<char>)
    ensures
        trim_end(s).len() <= s.len(),
    decreases s.len(),
{
    if s.len() > 0 && is_whitespace(s.last()) {
        lemma_trim_end_len(s.drop_last());
    }
}

/// Trimming leaves no more than there was.
pub proof fn lemma_trim_len(s: Seq<char>)
    ensures
        trim(s).len() <= s.len(),
{
    lemma_trim_start_len(s);
    lemma_trim_end_len(trim_start(s));
}

/// `s` begins with `p`.
pub open spec fn starts_with(s: Seq<char>, p: Seq<char>) -> bool {
    s.len() >= p.len() && s.take(p.len() as int) == p
}

/// `s` ends with `p`.
pub open spec fn ends_with(s: Seq<char>, p: Seq<char>) -> bool {
    s.len() >= p.len() && s.skip(s.len() - p.len()) == p
}

/// `i` is the first position of `c` in `s`.
pub open spec fn first_at(s: Seq<char>, c: char, i: int) -> bool {
    &&& 0 <= i < s.len()
    &&& s[i] == c
    &&& forall|j: int| 0 <= j < i ==> s[j] != c
}

/// The first position of `c` in `s`, where it occurs.
pub open spec fn first_index(s: Seq<char>, c: char) -> Option<int> {
    if exists|i: int| first_at(s, c, i) {
        Some(choose|i: int| first_at(s, c, i))
    } else {
        None
    }
}

proof fn lemma_first_unique(s: Seq<char>, c: char, i: int, k: int)
    requires
        first_at(s, c, i),
        first_at(s, c, k),
    ensures
        i == k,
{
}

/// `s` is a non-empty run of the digits `0` to `9`.
pub open spec fn all_digits(s: Seq<char>) -> bool {
    s.len() > 0 && forall|i: int| 0 <= i < s.len() ==> '0' <= #[trigger] s[i] <= '9'
}

/// The number that the digits `s` write in decimal.
pub open spec fn digits_value(s: Seq<char>) -> nat
    decreases s.len(),
{
    if s.len() == 0 {
        0
    } else {
        digits_value(s.drop_last()) * 10 + ((s.last() as int) - ('0' as int)) as nat
    }
}

/// What `usize::from_str` reads from `s`: digits, perhaps after a `+`, that
/// write a number that fits.
pub open spec fn parsed_usize(s: Seq<char>) -> Option<nat> {
    let d = if s.len() > 0 && s[0] == '+' {
        s.drop_first()
    } else {
        s
    };
    if all_digits(d) && digits_value(d) <= usize::MAX {
        Some(digits_value(d))
    } else {
        None
    }
}

/// The characters of `s`.
fn chars_of(s: &str) -> (r: Vec<char>)
    ensures
        r@ == s@,
{
    let n = s.unicode_len();
    let mut v: Vec<char> = Vec::new();
    let mut i: usize = 0;
    while i < n
        invariant
            n == s@.len(),
            i <= n,
            v@ == s@.take(i as int),
        decreases n - i,
    {
        v.push(s.get_char(i));
        proof {
            assert(s@.take(i + 1) =~= s@.take(i as int).push(s@[i as int]));
        }
        i = i + 1;
    }
    proof {
        assert(s@.take(n as int) =~= s@);
    }
    v
}

/// Whether the characters `lo..hi` of `v` are `lit`.
fn range_is(v: &Vec<char>, lo: usize, hi: usize, lit: &str) -> (r: bool)
    requires
        lo <= hi <= v@.len(),
    ensures
        r == (v@.subrange(lo as int, hi as int) == lit@),
{
    let n = lit.unicode_len();
    if hi - lo != n {
        proof {
            assert(v@.subrange(lo as int, hi as int).len() != lit@.len());
        }
        return false;
    }
    let mut i: usize = 0;
    while i < n
        invariant
            n == lit@.len(),
            hi - lo == n,
            lo <= hi <= v@.len(),
            i <= n,
            forall|j: int| 0 <= j < i ==> v@[lo + j] == lit@[j],
        decreases n - i,
    {
        if v[lo + i] != lit.get_char(i) {
            proof {
                assert(v@.subrange(lo as int, hi as int)[i as int] != lit@[i as int]);
            }
            return false;
        }
        i = i + 1;
    }
    proof {
        assert(v@.subrange(lo as int, hi as int) =~= lit@);
    }
    true
}

/// Whether the characters `lo..hi` of `v` begin with `lit`.
fn range_starts_with(v: &Vec<char>, lo: usize, hi: usize, lit: &str) -> (r: bool)
    requires
        lo <= hi <= v@.len(),
    ensures
        r == starts_with(v@.subrange(lo as int, hi as int), lit@),
{
    let n = lit.unicode_len();
    if hi - lo < n {
        return false;
    }
    let r = range_is(v, lo, lo + n, lit);
    proof {
        assert(v@.subrange(lo as int, hi as int).take(n as int) =~= v@.subrange(
            lo as int,
            lo + n,
        ));
    }
    r
}

/// The first position at or after `lo`, and before `hi`, of `c` in `v`.
fn find_char(v: &Vec<char>, lo: usize, hi: usize, c: char) -> (r: Option<usize>)
    requires
        lo <= hi <= v@.len(),
    ensures
        r matches Some(i) ==> lo <= i < hi && first_index(v@.subrange(lo as int, hi as int), c)
            == Some(i - lo),
        r is None ==> first_index(v@.subrange(lo as int, hi as int), c) is None,
{
    let ghost s = v@.subrange(lo as int, hi as int);
    let mut i = lo;
    while i < hi
        invariant
            lo <= i <= hi <= v@.len(),
            s == v@.subrange(lo as int, hi as int),
            forall|j: int| 0 <= j < i - lo ==> s[j] != c,
        decreases hi - i,
    {
        if v[i] == c {
            proof {
                assert(first_at(s, c, i - lo));
                assert forall|k: int| first_at(s, c, k) implies k == i - lo by {
                    lemma_first_unique(s, c, k, i - lo);
                }
            }
            return Some(i);
        }
        i = i + 1;
    }
    proof {
        assert forall|k: int| !first_at(s, c, k) by {
            if first_at(s, c, k) {
                assert(s[k] != c);
            }
        }
    }
    None
}

/// Whether `c` is white space, as `char::is_whitespace` has it.
fn whitespace(c: char) -> (r: bool)
    ensures
        r == is_whitespace(c),
{
    ('\t' <= c && c <= '\r') || c == ' ' || c == '\u{85}' || c == '\u{a0}' || c == '\u{1680}' || (
    '\u{2000}' <= c && c <= '\u{200a}') || c == '\u{2028}' || c == '\u{2029}' || c == '\u{202f}'
        || c == '\u{205f}' || c == '\u{3000}'
}

/// The range of the characters `lo..hi` of `v` without white space at
/// either end.
fn trim_range(v: &Vec<char>, lo: usize, hi: usize) -> (r: (usize, usize))
    requires
        lo <= hi <= v@.len(),
    ensures
        lo <= r.0 <= r.1 <= hi,
        v@.subrange(r.0 as int, r.1 as int) == trim(v@.subrange(lo as int, hi as int)),
{
    let mut a = lo;
    while a < hi && whitespace(v[a])
        invariant
            lo <= a <= hi <= v@.len(),
            trim_start(v@.subrange(lo as int, hi as int)) == trim_start(
                v@.subrange(a as int, hi as int),
            ),
        decreases hi - a,
    {
        proof {
            assert(v@.subrange(a as int, hi as int).drop_first() =~= v@.subrange(a + 1, hi as int));
        }
        a = a + 1;
    }
    let mut b = hi;
    while b > a && whitespace(v[b - 1])
        invariant
            lo <= a <= b <= hi <= v@.len(),
            trim_start(v@.subrange(lo as int, hi as int)) == v@.subrange(a as int, hi as int),
            trim_end(v@.subrange(a as int, hi as int)) == trim_end(v@.subrange(a as int, b as int)),
        decreases b - a,
    {
        proof {
            assert(v@.subrange(a as int, b as int).drop_last() =~= v@.subrange(a as int, b - 1));
        }
        b = b - 1;
    }
    (a, b)
}

/// What `usize::from_str` reads from the characters `lo..hi` of `v`.
fn parse_usize(v: &Vec<char>, lo: usize, hi: usize) -> (r: Option<usize>)
    requires
        lo <= hi <= v@.len(),
    ensures
        r matches Some(n) ==> parsed_usize(v@.subrange(lo as int, hi as int)) == Some(n as nat),
        r is None ==> parsed_usize(v@.subrange(lo as int, hi as int)) is None,
{
    let ghost s = v@.subrange(lo as int, hi as int);
    let start = if lo < hi && v[lo] == '+' {
        lo + 1
    } else {
        lo
    };
    let ghost d = v@.subrange(start as int, hi as int);
    proof {
        if lo < hi {
            assert(s[0] == v@[lo as int]);
        }
        if lo < hi && v@[lo as int] == '+' {
            assert(s.drop_first() =~= d);
        } else {
            assert(s =~= d);
        }
    }
    if start == hi {
        return None;
    }
    let cap: u128 = usize::MAX as u128 + 1;
    let mut acc: u128 = 0;
    let mut i = start;
    while i < hi
        invariant
            lo <= start <= i <= hi <= v@.len(),
            d == v@.subrange(start as int, hi as int),
            s == v@.subrange(lo as int, hi as int),
            d == (if s.len() > 0 && s[0] == '+' {
                s.drop_first()
            } else {
                s
            }),
            cap == usize::MAX + 1,
            forall|j: int| 0 <= j < i - start ==> '0' <= #[trigger] d[j] <= '9',
            acc == if digits_value(d.take(i - start)) < cap {
                digits_value(d.take(i - start))
            } else {
                cap as nat
            },
        decreases hi - i,
    {
        let c = v[i];
        if c < '0' || c > '9' {
            proof {
                assert(d[i - start] == c);
                assert(!('0' <= d[i - start] <= '9'));
                assert(!all_digits(d));
            }
            return None;
        }
        let digit = (c as u32 - '0' as u32) as u128;
        let ghost prev = digits_value(d.take(i - start));
        proof {
            assert(d.take(i - start + 1).drop_last() =~= d.take(i - start));
            assert(d.take(i - start + 1).last() == c);
            assert(digits_value(d.take(i - start + 1)) == prev * 10 + digit);
        }
        if acc >= cap {
            proof {
                assert(prev * 10 + digit >= cap) by (nonlinear_arith)
                    requires
                        prev >= cap,
                        cap > 0,
                ;
            }
            acc = cap;
        } else {
            let next = acc * 10 + digit;
            acc = if next >= cap {
                cap
            } else {
                next
            };
        }
        i = i + 1;
    }
    proof {
        assert(d.take(hi - start) =~= d);
    }
    if acc >= cap {
        None
    } else {
        Some(acc as usize)
    }
}

/// Appends the characters `lo..hi` of `v`.
fn push_range(s: &mut String, v: &Vec<char>, lo: usize, hi: usize)
    requires
        lo <= hi <= v@.len(),
    ensures
        final(s)@ == old(s)@ + v@.subrange(lo as int, hi as int),
{
    let mut i = lo;
    while i < hi
        invariant
            lo <= i <= hi <= v@.len(),
            s@ == old(s)@ + v@.subrange(lo as int, i as int),
        decreases hi - i,
    {
        string_push(s, v[i]);
        proof {
            assert(v@.subrange(lo as int, i + 1) =~= v@.subrange(lo as int, i as int).push(v@[i as int]));
        }
        i = i + 1;
    }
}

/// The scalar types that the host writes otherwise: the name of a
/// non-zero integer maps to its type in `std::num`.
pub open spec fn scalar_type(s: Seq<char>) -> Option<Seq<char>> {
    if s == "f32"@ {
        Some("f32"@)
    } else if s == "u32"@ {
        Some("u32"@)
    } else if s == "i32"@ {
        Some("i32"@)
    } else if s == "NonZeroU32"@ {
        Some("std::num::NonZeroU32"@)
    } else if s == "NonZeroI32"@ {
        Some("std::num::NonZeroI32"@)
    } else {
        None
    }
}

/// `t` split as `a<b>`: the text before its first `<`, and what lies
/// between that and the next `>`; what follows is not read.
pub open spec fn angle_split(t: Seq<char>) -> Option<(Seq<char>, Seq<char>)> {
    match first_index(t, '<') {
        Some(p) => match first_index(t.skip(p + 1), '>') {
            Some(q) => Some((t.take(p), t.subrange(p + 1, p + 1 + q))),
            None => None,
        },
        None => None,
    }
}

/// The scalar that a one-letter suffix (`f`, `u` or `i`) names.
pub open spec fn short_scalar(c: char) -> Option<Seq<char>> {
    if c == 'f' {
        Some("f32"@)
    } else if c == 'u' {
        Some("u32"@)
    } else if c == 'i' {
        Some("i32"@)
    } else {
        None
    }
}

/// The host's aligned type of a kind (`Vec` or `Matrix`), its dimensions
/// and its scalar.
pub open spec fn aligned(kind: Seq<char>, dims: Seq<char>, ty: Seq<char>) -> Seq<char> {
    "gputter::types::Aligned"@ + kind + dims + "<"@ + ty + ">"@
}

/// The short form of a vector or matrix type: one ASCII character for the
/// last dimension, then a one-letter scalar.
pub open spec fn short_form(kind: Seq<char>, dims: Seq<char>, t: Seq<char>) -> Option<Seq<char>> {
    if t.len() == 2 && t[0] < '\u{80}' && short_scalar(t[1]) is Some {
        Some(aligned(kind, dims + seq![t[0]], short_scalar(t[1]).unwrap()))
    } else {
        None
    }
}

/// The host type of the vector type `vec` followed by `inner`.
pub open spec fn vector_type(inner: Seq<char>) -> Option<Seq<char>> {
    match angle_split(inner) {
        Some((n, ty)) => Some(aligned("Vec"@, n, ty)),
        None => short_form("Vec"@, Seq::empty(), inner),
    }
}

/// The host type of the matrix type `mat`, `dim1`, `x`, `dim2`.
pub open spec fn matrix_type(dim1: Seq<char>, dim2: Seq<char>) -> Option<Seq<char>> {
    match angle_split(trim_end(dim2)) {
        Some((d2, ty)) => Some(aligned("Matrix"@, dim1 + "x"@ + d2, ty)),
        None => short_form("Matrix"@, dim1 + "x"@, dim2),
    }
}

/// The last value given for `name` among `consts`.
pub open spec fn const_value(consts: Seq<(Seq<char>, Option<u32>)>, name: Seq<char>) -> Option<
    Option<u32>,
>
    decreases consts.len(),
{
    if consts.len() == 0 {
        None
    } else if consts.last().0 == name {
        Some(consts.last().1)
    } else {
        const_value(consts.drop_last(), name)
    }
}

/// The shader's `u32` constants, by name: a value, or `None` for one filled
/// in only when the shader is built.
pub open spec fn consts_view(consts: Seq<(String, Option<u32>)>) -> Seq<(Seq<char>, Option<u32>)> {
    consts.map_values(|e: (String, Option<u32>)| (e.0@, e.1))
}

/// The host type of an array of `ty` of `count` elements, where `count` is
/// written out or names a constant; `None` where it is neither.
pub open spec fn sized_array(
    t: Seq<char>,
    count: Seq<char>,
    consts: Seq<(Seq<char>, Option<u32>)>,
) -> Option<Seq<char>> {
    match parsed_usize(count) {
        Some(n) => Some("["@ + t + "; "@ + decimal(n) + "]"@),
        None => match const_value(consts, count) {
            Some(Some(n)) => Some("["@ + t + "; "@ + decimal(n as nat) + "]"@),
            Some(None) => Some("["@ + t + "]"@),
            None => None,
        },
    }
}

/// The host type of the shader type `s`, where it has one: `None` where an
/// array's length is neither a number nor a constant, or a vector or
/// matrix type is malformed.
pub open spec fn resolve_type(s: Seq<char>, consts: Seq<(Seq<char>, Option<u32>)>) -> Option<
    Seq<char>,
>
    decreases s.len(),
{
    if scalar_type(s) is Some {
        scalar_type(s)
    } else if s.len() >= 7 && starts_with(s, "array<"@) && s.last() == '>' {
        let inner = s.subrange(6, s.len() - 1);
        match first_index(inner, ',') {
            Some(p) => {
                let ty = trim(inner.take(p));
                let count = trim(inner.skip(p + 1));
                proof {
                    lemma_trim_len(inner.take(p));
                }
                match resolve_type(ty, consts) {
                    Some(t) => sized_array(t, count, consts),
                    None => None,
                }
            },
            None => {
                proof {
                    lemma_trim_len(inner);
                }
                match resolve_type(trim(inner), consts) {
                    Some(t) => Some("["@ + t + "]"@),
                    None => None,
                }
            },
        }
    } else if s.len() >= 8 && starts_with(s, "atomic<"@) && s.last() == '>' {
        proof {
            lemma_trim_len(s.subrange(7, s.len() - 1));
        }
        resolve_type(trim(s.subrange(7, s.len() - 1)), consts)
    } else if starts_with(s, "vec"@) {
        vector_type(trim(s.skip(3)))
    } else if starts_with(s, "mat"@) && first_index(s.skip(3), 'x') is Some {
        let q = first_index(s.skip(3), 'x').unwrap();
        matrix_type(s.skip(3).take(q), s.skip(3).skip(q + 1))
    } else {
        Some(s)
    }
}

/// The value given last for the characters `lo..hi` of `v` among `consts`.
fn lookup_const(consts: &Vec<(String, Option<u32>)>, v: &Vec<char>, lo: usize, hi: usize) -> (r:
    Option<Option<u32>>)
    requires
        lo <= hi <= v@.len(),
    ensures
        r == const_value(consts_view(consts@), v@.subrange(lo as int, hi as int)),
{
    let ghost name = v@.subrange(lo as int, hi as int);
    let mut k = consts.len();
    proof {
        assert(consts@.take(k as int) =~= consts@);
    }
    while k > 0
        invariant
            k <= consts@.len(),
            lo <= hi <= v@.len(),
            name == v@.subrange(lo as int, hi as int),
            const_value(consts_view(consts@), name) == const_value(
                consts_view(consts@.take(k as int)),
                name,
            ),
        decreases k,
    {
        let e = &consts[k - 1];
        let ghost cv = consts_view(consts@.take(k as int));
        proof {
            assert(cv.last() == (consts@[k - 1].0@, consts@[k - 1].1));
            assert(cv.drop_last() =~= consts_view(consts@.take(k - 1)));
        }
        if range_is(v, lo, hi, e.0.as_str()) {
            return Some(e.1);
        }
        k = k - 1;
    }
    None
}

/// The character that a one-letter scalar suffix stands for, with its
/// scalar.
fn short_scalar_of(c: char) -> (r: Option<String>)
    ensures
        r matches Some(x) ==> short_scalar(c) == Some(x@),
        r is None ==> short_scalar(c) is None,
{
    if c == 'f' {
        Some("f32".to_owned())
    } else if c == 'u' {
        Some("u32".to_owned())
    } else if c == 'i' {
        Some("i32".to_owned())
    } else {
        None
    }
}

/// Where the characters `a..b` of `v` split as `x<y>`: the positions of
/// the first `<` and of the next `>`.
fn angle_split_at(v: &Vec<char>, a: usize, b: usize) -> (r: Option<(usize, usize)>)
    requires
        a <= b <= v@.len(),
    ensures
        r matches Some((p, q)) ==> a <= p < q < b && angle_split(v@.subrange(a as int, b as int))
            == Some((v@.subrange(a as int, p as int), v@.subrange(p + 1, q as int))),
        r is None ==> angle_split(v@.subrange(a as int, b as int)) is None,
{
    let ghost t = v@.subrange(a as int, b as int);
    match find_char(v, a, b, '<') {
        Some(p) => {
            proof {
                assert(t.skip(p - a + 1) =~= v@.subrange(p + 1, b as int));
            }
            match find_char(v, p + 1, b, '>') {
                Some(q) => {
                    proof {
                        assert(t.take(p - a) =~= v@.subrange(a as int, p as int));
                        assert(t.subrange(p - a + 1, p - a + 1 + (q - (p + 1))) =~= v@.subrange(
                            p + 1,
                            q as int,
                        ));
                    }
                    Some((p, q))
                },
                None => None,
            }
        },
        None => None,
    }
}

/// Appends the host's aligned type of a kind, dimensions `dims` followed by
/// the characters `lo..hi` of `v`, and scalar `ty`.
fn push_aligned(out: &mut String, kind: &str, dims: &str, v: &Vec<char>, lo: usize, hi: usize, ty: &Vec<char>, tlo: usize, thi: usize)
    requires
        lo <= hi <= v@.len(),
        tlo <= thi <= ty@.len(),
    ensures
        final(out)@ == old(out)@ + aligned(
            kind@,
            dims@ + v@.subrange(lo as int, hi as int),
            ty@.subrange(tlo as int, thi as int),
        ),
{
    let ghost start = out@;
    push_str(out, "gputter::types::Aligned");
    push_str(out, kind);
    push_str(out, dims);
    push_range(out, v, lo, hi);
    push_str(out, "<");
    push_range(out, ty, tlo, thi);
    push_str(out, ">");
    proof {
        assert(out@ =~= start + aligned(
            kind@,
            dims@ + v@.subrange(lo as int, hi as int),
            ty@.subrange(tlo as int, thi as int),
        ));
    }
}

/// The host type of a vector or matrix type in its short form: the
/// characters `a..b` of `v`, after the dimensions `dims` that the
/// characters `dlo..dhi` of `v` give, with the kind's name.
fn short_form_of(kind: &str, dims: &str, v: &Vec<char>, dlo: usize, dhi: usize, a: usize, b: usize) -> (r: Option<String>)
    requires
        dlo <= dhi <= v@.len(),
        a <= b <= v@.len(),
    ensures
        r matches Some(x) ==> short_form(
            kind@,
            dims@ + v@.subrange(dlo as int, dhi as int),
            v@.subrange(a as int, b as int),
        ) == Some(x@),
        r is None ==> short_form(
            kind@,
            dims@ + v@.subrange(dlo as int, dhi as int),
            v@.subrange(a as int, b as int),
        ) is None,
{
    let ghost t = v@.subrange(a as int, b as int);
    if b - a != 2 || v[a] >= '\u{80}' {
        return None;
    }
    proof {
        assert(t[0] == v@[a as int] && t[1] == v@[a + 1]);
    }
    match short_scalar_of(v[a + 1]) {
        Some(scalar) => {
            let sv: Vec<char> = chars_of(scalar.as_str());
            let mut out = String::new();
            let ghost e = out@;
            push_str(&mut out, "gputter::types::Aligned");
            push_str(&mut out, kind);
            push_str(&mut out, dims);
            push_range(&mut out, v, dlo, dhi);
            push_range(&mut out, v, a, a + 1);
            push_str(&mut out, "<");
            push_range(&mut out, &sv, 0, sv.len());
            push_str(&mut out, ">");
            proof {
                assert(e =~= Seq::<char>::empty());
                assert(v@.subrange(a as int, a + 1) =~= seq![t[0]]);
                assert(sv@.subrange(0, sv@.len() as int) =~= scalar@);
                assert(out@ =~= aligned(
                    kind@,
                    dims@ + v@.subrange(dlo as int, dhi as int) + seq![t[0]],
                    scalar@,
                ));
            }
            Some(out)
        },
        None => None,
    }
}

/// The host type of the shader type that the characters `lo..hi` of `v`
/// write, as [`resolve_type`] gives it.
#[verifier::spinoff_prover]
#[verifier::rlimit(40)]
fn resolve(v: &Vec<char>, lo: usize, hi: usize, consts: &Vec<(String, Option<u32>)>) -> (r: Option<
    String,
>)
    requires
        lo <= hi <= v@.len(),
    ensures
        r matches Some(x) ==> resolve_type(v@.subrange(lo as int, hi as int), consts_view(consts@))
            == Some(x@),
        r is None ==> resolve_type(v@.subrange(lo as int, hi as int), consts_view(consts@)) is None,
    decreases hi - lo,
{
    let ghost s = v@.subrange(lo as int, hi as int);
    let ghost cv = consts_view(consts@);
    if range_is(v, lo, hi, "f32") {
        return Some("f32".to_owned());
    }
    if range_is(v, lo, hi, "u32") {
        return Some("u32".to_owned());
    }
    if range_is(v, lo, hi, "i32") {
        return Some("i32".to_owned());
    }
    if range_is(v, lo, hi, "NonZeroU32") {
        return Some("std::num::NonZeroU32".to_owned());
    }
    if range_is(v, lo, hi, "NonZeroI32") {
        return Some("std::num::NonZeroI32".to_owned());
    }
    assert(scalar_type(s) is None);
    if hi - lo >= 7 && range_starts_with(v, lo, hi, "array<") && v[hi - 1] == '>' {
        let ghost inner = s.subrange(6, s.len() - 1);
        proof {
            assert(s.last() == v@[hi - 1]);
            assert(inner =~= v@.subrange(lo + 6, hi - 1));
        }
        match find_char(v, lo + 6, hi - 1, ',') {
            Some(p) => {
                let (a, b) = trim_range(v, lo + 6, p);
                let (c, d) = trim_range(v, p + 1, hi - 1);
                proof {
                    assert(inner.take(p - (lo + 6)) =~= v@.subrange(lo + 6, p as int));
                    assert(inner.skip(p - (lo + 6) + 1) =~= v@.subrange(p + 1, hi - 1));
                }
                let t = match resolve(v, a, b, consts) {
                    Some(t) => t,
                    None => return None,
                };
                let mut out = "[".to_owned();
                push_str(&mut out, t.as_str());
                let ghost head = out@;
                match parse_usize(v, c, d) {
                    Some(n) => {
                        push_str(&mut out, "; ");
                        push_decimal(&mut out, n as u64);
                        push_str(&mut out, "]");
                        proof {
                            assert(out@ =~= "["@ + t@ + "; "@ + decimal(n as nat) + "]"@);
                        }
                        Some(out)
                    },
                    None => match lookup_const(consts, v, c, d) {
                        Some(Some(n)) => {
                            push_str(&mut out, "; ");
                            push_decimal(&mut out, n as u64);
                            push_str(&mut out, "]");
                            proof {
                                assert(out@ =~= "["@ + t@ + "; "@ + decimal(n as nat) + "]"@);
                            }
                            Some(out)
                        },
                        Some(None) => {
                            push_str(&mut out, "]");
                            proof {
                                assert(out@ =~= "["@ + t@ + "]"@);
                            }
                            Some(out)
                        },
                        None => None,
                    },
                }
            },
            None => {
                let (a, b) = trim_range(v, lo + 6, hi - 1);
                let t = match resolve(v, a, b, consts) {
                    Some(t) => t,
                    None => return None,
                };
                let mut out = "[".to_owned();
                push_str(&mut out, t.as_str());
                push_str(&mut out, "]");
                proof {
                    assert(out@ =~= "["@ + t@ + "]"@);
                }
                Some(out)
            },
        }
    } else {
        proof {
            if s.len() >= 7 && starts_with(s, "array<"@) {
                assert(s.last() == v@[hi - 1]);
            }
        }
        if hi - lo >= 8 && range_starts_with(v, lo, hi, "atomic<") && v[hi - 1] == '>' {
            proof {
                assert(s.last() == v@[hi - 1]);
                assert(s.subrange(7, s.len() - 1) =~= v@.subrange(lo + 7, hi - 1));
            }
            let (a, b) = trim_range(v, lo + 7, hi - 1);
            return resolve(v, a, b, consts);
        }
        proof {
            if s.len() >= 8 && starts_with(s, "atomic<"@) {
                assert(s.last() == v@[hi - 1]);
            }
        }
        if range_starts_with(v, lo, hi, "vec") {
            proof {
                reveal_strlit("vec");
                assert(s.skip(3) =~= v@.subrange(lo + 3, hi as int));
            }
            let (a, b) = trim_range(v, lo + 3, hi);
            return match angle_split_at(v, a, b) {
                Some((p, q)) => {
                    let mut out = String::new();
                    let ghost e = out@;
                    push_aligned(&mut out, "Vec", "", v, a, p, v, p + 1, q);
                    proof {
                        reveal_strlit("");
                        assert(e =~= Seq::<char>::empty());
                        assert(""@ + v@.subrange(a as int, p as int) =~= v@.subrange(a as int, p as int));
                        assert(out@ =~= aligned("Vec"@, v@.subrange(a as int, p as int), v@.subrange(p + 1, q as int)));
                    }
                    Some(out)
                },
                None => {
                    let r = short_form_of("Vec", "", v, a, a, a, b);
                    proof {
                        reveal_strlit("");
                        assert(""@ + v@.subrange(a as int, a as int) =~= Seq::<char>::empty());
                    }
                    r
                },
            };
        }
        if range_starts_with(v, lo, hi, "mat") {
            proof {
                reveal_strlit("mat");
                assert(s.skip(3) =~= v@.subrange(lo + 3, hi as int));
            }
            match find_char(v, lo + 3, hi, 'x') {
                Some(q) => {
                    let ghost rest = s.skip(3);
                    let ghost q0 = q - (lo + 3);
                    proof {
                        assert(rest.take(q0) =~= v@.subrange(lo + 3, q as int));
                        assert(rest.skip(q0 + 1) =~= v@.subrange(q + 1, hi as int));
                    }
                    let e = trim_end_range(v, q + 1, hi);
                    return match angle_split_at(v, q + 1, e) {
                        Some((p, g)) => {
                            let mut out = String::new();
                            let ghost e0 = out@;
                            let mut dims = String::new();
                            push_range(&mut dims, v, lo + 3, q);
                            push_str(&mut dims, "x");
                            push_aligned(&mut out, "Matrix", dims.as_str(), v, q + 1, p, v, p + 1, g);
                            proof {
                                assert(e0 =~= Seq::<char>::empty());
                                assert(out@ =~= aligned(
                                    "Matrix"@,
                                    v@.subrange(lo + 3, q as int) + "x"@ + v@.subrange(q + 1, p as int),
                                    v@.subrange(p + 1, g as int),
                                ));
                            }
                            Some(out)
                        },
                        None => {
                            let mut dims = String::new();
                            push_range(&mut dims, v, lo + 3, q);
                            push_str(&mut dims, "x");
                            let r = short_form_of("Matrix", dims.as_str(), v, q + 1, q + 1, q + 1, hi);
                            proof {
                                assert(dims@ + v@.subrange(q + 1, q + 1) =~= v@.subrange(lo + 3, q as int) + "x"@);
                            }
                            r
                        },
                    };
                },
                None => {},
            }
        }
        let mut out = String::new();
        push_range(&mut out, v, lo, hi);
        proof {
            assert(out@ =~= s);
        }
        Some(out)
    }
}

/// The end of the characters `lo..hi` of `v` without the white space they
/// end with.
fn trim_end_range(v: &Vec<char>, lo: usize, hi: usize) -> (r: usize)
    requires
        lo <= hi <= v@.len(),
    ensures
        lo <= r <= hi,
        v@.subrange(lo as int, r as int) == trim_end(v@.subrange(lo as int, hi as int)),
{
    let mut b = hi;
    while b > lo && whitespace(v[b - 1])
        invariant
            lo <= b <= hi <= v@.len(),
            trim_end(v@.subrange(lo as int, hi as int)) == trim_end(v@.subrange(lo as int, b as int)),
        decreases b - lo,
    {
        proof {
            assert(v@.subrange(lo as int, b as int).drop_last() =~= v@.subrange(lo as int, b - 1));
        }
        b = b - 1;
    }
    b
}

/// The Rust type that holds on the host a value of the shader type `s`,
/// with the shader's `u32` constants `uint_consts` for array lengths (a
/// value, or `None` for one filled in only when the shader is built; the
/// last entry for a name counts). `None` where an array's length is neither
/// a number nor a constant, or a vector or matrix type is malformed.
pub fn type_resolver(s: &str, uint_consts: &Vec<(String, Option<u32>)>) -> (r: Option<String>)
    ensures
        r matches Some(x) ==> resolve_type(s@, consts_view(uint_consts@)) == Some(x@),
        r is None ==> resolve_type(s@, consts_view(uint_consts@)) is None,
{
    let v = chars_of(s);
    proof {
        assert(v@.subrange(0, v@.len() as int) =~= s@);
    }
    resolve(&v, 0, v.len(), uint_consts)
}

/// `p` occurs in `s` at position `j`.
pub open spec fn occurs_at(s: Seq<char>, p: Seq<char>, j: int) -> bool {
    0 <= j && j + p.len() <= s.len() && s.subrange(j, j + p.len()) == p
}

/// `i` is the first position in `s` where `p` occurs.
pub open spec fn first_str_at(s: Seq<char>, p: Seq<char>, i: int) -> bool {
    &&& occurs_at(s, p, i)
    &&& forall|j: int| 0 <= j < i ==> !#[trigger] occurs_at(s, p, j)
}

/// The first position in `s` where `p` occurs, where it does.
pub open spec fn first_str(s: Seq<char>, p: Seq<char>) -> Option<int> {
    if exists|i: int| first_str_at(s, p, i) {
        Some(choose|i: int| first_str_at(s, p, i))
    } else {
        None
    }
}

/// How shaders reach a buffer.
#[derive(Clone, Copy, Debug, PartialEq, Eq, Structural)]
pub enum StorageType {
    /// A uniform buffer, which shaders only read.
    Uniform,
    /// A storage buffer, which shaders may only read or also write.
    Storage { shader_read_only: bool },
}

/// The access that a buffer declaration's `var<..>` names: `uniform`, or
/// `storage` followed by a comma and `read_write` or `read`.
pub open spec fn storage_of(t: Seq<char>) -> Option<StorageType> {
    if trim(t) == "uniform"@ {
        Some(StorageType::Uniform)
    } else {
        match first_str(t, "storage,"@) {
            Some(i) => {
                let mode = trim(t.skip(i + 8));
                if mode == "read_write"@ {
                    Some(StorageType::Storage { shader_read_only: false })
                } else if mode == "read"@ {
                    Some(StorageType::Storage { shader_read_only: true })
                } else {
                    None
                }
            },
            None => None,
        }
    }
}

/// The parts of a buffer declaration `..var<access> name: type;`: the
/// access, the name and the type, untrimmed; what follows the `;` is not
/// read.
pub open spec fn buffer_parts(s: Seq<char>) -> Option<(Seq<char>, Seq<char>, Seq<char>)> {
    match first_str(s, "var<"@) {
        Some(i) => {
            let r1 = s.skip(i + 4);
            match first_index(r1, '>') {
                Some(j) => {
                    let r2 = r1.skip(j + 1);
                    match first_index(r2, ':') {
                        Some(k) => {
                            let r3 = r2.skip(k + 1);
                            match first_index(r3, ';') {
                                Some(l) => Some((r1.take(j), r2.take(k), r3.take(l))),
                                None => None,
                            }
                        },
                        None => None,
                    }
                },
                None => None,
            }
        },
        None => None,
    }
}

/// A buffer that a shader declares: its name, the host type of what it
/// holds, and how shaders reach it.
pub open spec fn buffer_decl(s: Seq<char>, consts: Seq<(Seq<char>, Option<u32>)>) -> Option<
    (Seq<char>, Seq<char>, StorageType),
> {
    match buffer_parts(s) {
        Some((access, name, ty)) => match (resolve_type(trim(ty), consts), storage_of(access)) {
            (Some(host), Some(storage)) => Some((trim(name), host, storage)),
            _ => None,
        },
        None => None,
    }
}

/// A buffer that a shader declares, as the host sees it.
pub struct BufferDecl {
    /// The buffer's name.
    pub name: String,
    /// The Rust type of what it holds.
    pub host_type: String,
    /// How shaders reach it.
    pub storage: StorageType,
}

/// The first position at or after `lo`, where `lit` fits before `hi`, at
/// which the characters of `v` are `lit`.
fn find_str(v: &Vec<char>, lo: usize, hi: usize, lit: &str) -> (r: Option<usize>)
    requires
        lo <= hi <= v@.len(),
    ensures
        r matches Some(i) ==> lo <= i && first_str(v@.subrange(lo as int, hi as int), lit@) == Some(
            i - lo,
        ),
        r is None ==> first_str(v@.subrange(lo as int, hi as int), lit@) is None,
{
    let ghost s = v@.subrange(lo as int, hi as int);
    let n = lit.unicode_len();
    if hi - lo < n {
        proof {
            assert forall|k: int| !first_str_at(s, lit@, k) by {}
        }
        return None;
    }
    if n == 0 {
        proof {
            assert(s.subrange(0, 0) =~= lit@);
            assert(first_str_at(s, lit@, 0));
            assert forall|k: int| first_str_at(s, lit@, k) implies k == 0 by {
                if k > 0 {
                    assert(occurs_at(s, lit@, 0));
                }
            }
        }
        return Some(lo);
    }
    let mut i = lo;
    while hi - i >= n
        invariant
            lo <= i <= hi <= v@.len(),
            n == lit@.len(),
            n > 0,
            n <= hi - lo,
            s == v@.subrange(lo as int, hi as int),
            forall|j: int| 0 <= j < i - lo ==> !#[trigger] occurs_at(s, lit@, j),
        decreases hi - i,
    {
        if range_is(v, i, i + n, lit) {
            proof {
                assert(s.subrange(i - lo, i - lo + n) =~= v@.subrange(i as int, i + n));
                assert(first_str_at(s, lit@, i - lo));
                assert forall|k: int| first_str_at(s, lit@, k) implies k == i - lo by {
                    if k < i - lo {
                        assert(!occurs_at(s, lit@, k));
                    } else if k > i - lo {
                        assert(occurs_at(s, lit@, i - lo));
                    }
                }
            }
            return Some(i);
        }
        proof {
            assert(s.subrange(i - lo, i - lo + n) =~= v@.subrange(i as int, i + n));
            assert(!occurs_at(s, lit@, i - lo));
        }
        i = i + 1;
    }
    proof {
        assert forall|k: int| !first_str_at(s, lit@, k) by {
            if first_str_at(s, lit@, k) {
                assert(!occurs_at(s, lit@, k));
            }
        }
    }
    None
}

/// How shaders reach a buffer whose `var<..>` names the characters `lo..hi`
/// of `v`.
fn storage_type_of(v: &Vec<char>, lo: usize, hi: usize) -> (r: Option<StorageType>)
    requires
        lo <= hi <= v@.len(),
    ensures
        r == storage_of(v@.subrange(lo as int, hi as int)),
{
    let ghost t = v@.subrange(lo as int, hi as int);
    let (a, b) = trim_range(v, lo, hi);
    if range_is(v, a, b, "uniform") {
        return Some(StorageType::Uniform);
    }
    match find_str(v, lo, hi, "storage,") {
        Some(i) => {
            proof {
                reveal_strlit("storage,");
                assert(t.skip(i - lo + 8) =~= v@.subrange(i + 8, hi as int));
            }
            let (c, d) = trim_range(v, i + 8, hi);
            if range_is(v, c, d, "read_write") {
                Some(StorageType::Storage { shader_read_only: false })
            } else if range_is(v, c, d, "read") {
                Some(StorageType::Storage { shader_read_only: true })
            } else {
                None
            }
        },
        None => None,
    }
}

/// The buffer that the declaration `decl` (`..var<access> name: type;`)
/// declares, with the shader's `u32` constants for array lengths, as
/// [`buffer_decl`] gives it; `None` where the declaration is malformed.
pub fn parse_buffer(decl: &str, uint_consts: &Vec<(String, Option<u32>)>) -> (r: Option<BufferDecl>)
    ensures
        r matches Some(b) ==> buffer_decl(decl@, consts_view(uint_consts@)) == Some(
            (b.name@, b.host_type@, b.storage),
        ),
        r is None ==> buffer_decl(decl@, consts_view(uint_consts@)) is None,
{
    let v = chars_of(decl);
    proof {
        assert(v@.subrange(0, v@.len() as int) =~= decl@);
    }
    buffer_in(&v, 0, v.len(), uint_consts)
}

/// The buffer that the characters `lo..hi` of `v` declare, as
/// [`buffer_decl`] gives it.
fn buffer_in(v: &Vec<char>, lo: usize, n: usize, uint_consts: &Vec<(String, Option<u32>)>) -> (r:
    Option<BufferDecl>)
    requires
        lo <= n <= v@.len(),
    ensures
        r matches Some(b) ==> buffer_decl(v@.subrange(lo as int, n as int), consts_view(uint_consts@))
            == Some((b.name@, b.host_type@, b.storage)),
        r is None ==> buffer_decl(v@.subrange(lo as int, n as int), consts_view(uint_consts@)) is None,
{
    let ghost s = v@.subrange(lo as int, n as int);
    proof {
        reveal_strlit("var<");
    }
    let i = match find_str(v, lo, n, "var<") {
        Some(i) => i,
        None => return None,
    };
    let ghost r1 = s.skip(i - lo + 4);
    proof {
        assert(r1 =~= v@.subrange(i + 4, n as int));
    }
    let j = match find_char(v, i + 4, n, '>') {
        Some(j) => j,
        None => return None,
    };
    let ghost r2 = r1.skip(j - (i + 4) + 1);
    proof {
        assert(r2 =~= v@.subrange(j + 1, n as int));
        assert(r1.take(j - (i + 4)) =~= v@.subrange(i + 4, j as int));
    }
    let k = match find_char(v, j + 1, n, ':') {
        Some(k) => k,
        None => return None,
    };
    let ghost r3 = r2.skip(k - (j + 1) + 1);
    proof {
        assert(r3 =~= v@.subrange(k + 1, n as int));
        assert(r2.take(k - (j + 1)) =~= v@.subrange(j + 1, k as int));
    }
    let l = match find_char(v, k + 1, n, ';') {
        Some(l) => l,
        None => return None,
    };
    proof {
        assert(r3.take(l - (k + 1)) =~= v@.subrange(k + 1, l as int));
    }
    let (ta, tb) = trim_range(v, k + 1, l);
    let host_type = match resolve(v, ta, tb, uint_consts) {
        Some(t) => t,
        None => return None,
    };
    let storage = match storage_type_of(v, i + 4, j) {
        Some(st) => st,
        None => return None,
    };
    let (na, nb) = trim_range(v, j + 1, k);
    let mut name = String::new();
    push_range(&mut name, v, na, nb);
    proof {
        assert(name@ =~= v@.subrange(na as int, nb as int));
    }
    Some(BufferDecl { name, host_type, storage })
}

/// The marker that comes before each buffer declaration of a shader.
pub open spec fn buffer_marker() -> Seq<char> {
    seq!['#', '[', 'b', 'u', 'f', 'f', 'e', 'r', ']']
}

/// The text of `rest` up to its first [`buffer_marker`], or all of it.
pub open spec fn piece_of(rest: Seq<char>) -> Seq<char> {
    match first_str(rest, buffer_marker()) {
        Some(k) => rest.take(k),
        None => rest,
    }
}

/// The buffers declared after each [`buffer_marker`] in `s`: each by the
/// text up to the next marker; `None` where one of them is malformed.
#[verifier::opaque]
pub open spec fn buffers_after(s: Seq<char>, consts: Seq<(Seq<char>, Option<u32>)>) -> Option<
    Seq<(Seq<char>, Seq<char>, StorageType)>,
>
    decreases s.len(),
{
    match first_str(s, buffer_marker()) {
        Some(i) => {
            let rest = s.skip(i + 9);
            match buffer_decl(piece_of(rest), consts) {
                Some(b) => prepend(seq![b], buffers_after(rest, consts)),
                None => None,
            }
        },
        None => Some(Seq::empty()),
    }
}

/// The buffers as values.
pub open spec fn decls_view(d: Seq<BufferDecl>) -> Seq<(Seq<char>, Seq<char>, StorageType)> {
    d.map_values(|b: BufferDecl| (b.name@, b.host_type@, b.storage))
}

/// `before` followed by what `after` holds, where it holds anything.
pub open spec fn prepend<T>(before: Seq<T>, after: Option<Seq<T>>) -> Option<Seq<T>> {
    match after {
        Some(a) => Some(before + a),
        None => None,
    }
}

/// A shader with a marker at `i` declares the buffer after it, then those
/// after the next markers.
proof fn lemma_buffers_found(s: Seq<char>, consts: Seq<(Seq<char>, Option<u32>)>, i: int)
    requires
        first_str(s, buffer_marker()) == Some(i),
    ensures
        buffers_after(s, consts) == (match buffer_decl(piece_of(s.skip(i + 9)), consts) {
            Some(b) => prepend(seq![b], buffers_after(s.skip(i + 9), consts)),
            None => None,
        }),
{
    reveal(buffers_after);
}

/// A shader with no marker declares no buffer.
proof fn lemma_buffers_none(s: Seq<char>, consts: Seq<(Seq<char>, Option<u32>)>)
    requires
        first_str(s, buffer_marker()) is None,
    ensures
        buffers_after(s, consts) == Some(Seq::<(Seq<char>, Seq<char>, StorageType)>::empty()),
{
    reveal(buffers_after);
}

/// The buffers that the shader `shader` declares, each after a
/// `#[buffer]` marker, with the shader's `u32` constants for array lengths,
/// as [`buffers_after`] gives them; `None` where one is malformed.
pub fn parse_buffers(shader: &str, uint_consts: &Vec<(String, Option<u32>)>) -> (r: Option<
    Vec<BufferDecl>,
>)
    ensures
        r matches Some(d) ==> buffers_after(shader@, consts_view(uint_consts@)) == Some(
            decls_view(d@),
        ),
        r is None ==> buffers_after(shader@, consts_view(uint_consts@)) is None,
{
    let v = chars_of(shader);
    let n = v.len();
    let ghost cv = consts_view(uint_consts@);
    proof {
        reveal_strlit("#[buffer]");
        assert("#[buffer]"@ =~= buffer_marker());
        assert(v@.subrange(0, n as int) =~= shader@);
    }
    let mut out: Vec<BufferDecl> = Vec::new();
    let mut pos: usize = 0;
    loop
        invariant
            pos <= n == v@.len(),
            v@ == shader@,
            "#[buffer]"@ == buffer_marker(),
            cv == consts_view(uint_consts@),
            buffers_after(shader@, cv) == prepend(
                decls_view(out@),
                buffers_after(v@.subrange(pos as int, n as int), cv),
            ),
        decreases n - pos,
    {
        let ghost sub = v@.subrange(pos as int, n as int);
        match find_str(&v, pos, n, "#[buffer]") {
            Some(i) => {
                let ghost rest = sub.skip(i - pos + 9);
                proof {
                    assert(rest =~= v@.subrange(i + 9, n as int));
                    lemma_buffers_found(sub, cv, i - pos);
                }
                let end = match find_str(&v, i + 9, n, "#[buffer]") {
                    Some(k) => {
                        proof {
                            assert(rest.take(k - (i + 9)) =~= v@.subrange(i + 9, k as int));
                        }
                        k
                    },
                    None => n,
                };
                proof {
                    assert(piece_of(rest) == v@.subrange(i + 9, end as int));
                }
                match buffer_in(&v, i + 9, end, uint_consts) {
                    Some(b) => {
                        let ghost before = out@;
                        out.push(b);
                        proof {
                            let bv = (b.name@, b.host_type@, b.storage);
                            assert(decls_view(out@) =~= decls_view(before) + seq![bv]);
                            match buffers_after(rest, cv) {
                                Some(bs) => {
                                    assert(decls_view(before) + (seq![bv] + bs) =~= decls_view(out@)
                                        + bs);
                                },
                                None => {},
                            }
                        }
                        pos = i + 9;
                    },
                    None => return None,
                }
            },
            None => {
                proof {
                    lemma_buffers_none(sub, cv);
                    assert(decls_view(out@) + Seq::<(Seq<char>, Seq<char>, StorageType)>::empty()
                        =~= decls_view(out@));
                }
                return Some(out);
            },
        }
    }
}

/// The kinds of characters that a constant declaration is made of.
#[derive(Clone, Copy, Debug, PartialEq, Eq, Structural)]
pub enum CharClass {
    /// White space.
    Space,
    /// `a`-`z`, `A`-`Z`, `0`-`9` and `_`: a constant's name.
    Name,
    /// `a`-`z`, `A`-`Z` and `0`-`9`: a type's name.
    Alnum,
    /// Those of a name and braces: a value, or a placeholder in braces.
    Value,
    /// Spaces, tabs and what is not white space: the text of a comment.
    CommentText,
    /// White space, letters, digits and `@ ( ) _ , * + - / %`: the
    /// attributes between `@compute` and a function.
    Attribute,
    /// What is not white space.
    Visible,
}

/// `c` is an ASCII letter or digit.
pub open spec fn is_alnum(c: char) -> bool {
    ('a' <= c <= 'z') || ('A' <= c <= 'Z') || ('0' <= c <= '9')
}

/// `c` is of the class `k`.
pub open spec fn in_class(c: char, k: CharClass) -> bool {
    match k {
        CharClass::Space => is_whitespace(c),
        CharClass::Name => is_alnum(c) || c == '_',
        CharClass::Alnum => is_alnum(c),
        CharClass::Value => is_alnum(c) || c == '_' || c == '{' || c == '}',
        CharClass::CommentText => c == ' ' || c == '\t' || !is_whitespace(c),
        CharClass::Attribute => is_whitespace(c) || is_alnum(c) || c == '@' || c == '(' || c == ')'
            || c == '_' || c == ',' || c == '*' || c == '+' || c == '-' || c == '/' || c == '%',
        CharClass::Visible => !is_whitespace(c),
    }
}

/// Where the run of characters of class `k` that starts at `j` in `s` ends.
pub open spec fn run_end(s: Seq<char>, j: int, k: CharClass) -> int
    decreases s.len() - j,
{
    if 0 <= j < s.len() && in_class(s[j], k) {
        run_end(s, j + 1, k)
    } else {
        j
    }
}

/// A run ends where it starts or later, and within `s`.
pub proof fn lemma_run_end(s: Seq<char>, j: int, k: CharClass)
    requires
        0 <= j <= s.len(),
    ensures
        j <= run_end(s, j, k) <= s.len(),
    decreases s.len() - j,
{
    if j < s.len() && in_class(s[j], k) {
        lemma_run_end(s, j + 1, k);
    }
}

/// A constant declaration at `i` in `s`: `const`, its name, `:`, its type,
/// `=`, its value, with white space between them and perhaps a `;` after;
/// the position after it, and its name, type and value.
pub open spec fn const_match_at(s: Seq<char>, i: int) -> Option<
    (int, Seq<char>, Seq<char>, Seq<char>),
> {
    if 0 <= i && i + 5 <= s.len() && s.subrange(i, i + 5) == seq!['c', 'o', 'n', 's', 't'] {
        let j1 = run_end(s, i + 5, CharClass::Space);
        let k = run_end(s, j1, CharClass::Name);
        let j2 = run_end(s, k, CharClass::Space);
        if k > j1 && j2 < s.len() && s[j2] == ':' {
            let j3 = run_end(s, j2 + 1, CharClass::Space);
            let m = run_end(s, j3, CharClass::Alnum);
            let j4 = run_end(s, m, CharClass::Space);
            if m > j3 && j4 < s.len() && s[j4] == '=' {
                let j5 = run_end(s, j4 + 1, CharClass::Space);
                let e = run_end(s, j5, CharClass::Value);
                let j6 = run_end(s, e, CharClass::Space);
                if e > j5 {
                    let end = if j6 < s.len() && s[j6] == ';' {
                        j6 + 1
                    } else {
                        j6
                    };
                    Some((end, s.subrange(j1, k), s.subrange(j3, m), s.subrange(j5, e)))
                } else {
                    None
                }
            } else {
                None
            }
        } else {
            None
        }
    } else {
        None
    }
}

/// A match ends after where it starts, within `s`.
pub proof fn lemma_const_match_bounds(s: Seq<char>, i: int)
    ensures
        const_match_at(s, i) matches Some((end, _, _, _)) ==> i < end <= s.len(),
{
    if 0 <= i && i + 5 <= s.len() && s.subrange(i, i + 5) == seq!['c', 'o', 'n', 's', 't'] {
        let j1 = run_end(s, i + 5, CharClass::Space);
        lemma_run_end(s, i + 5, CharClass::Space);
        let k = run_end(s, j1, CharClass::Name);
        lemma_run_end(s, j1, CharClass::Name);
        let j2 = run_end(s, k, CharClass::Space);
        lemma_run_end(s, k, CharClass::Space);
        if k > j1 && j2 < s.len() && s[j2] == ':' {
            let j3 = run_end(s, j2 + 1, CharClass::Space);
            lemma_run_end(s, j2 + 1, CharClass::Space);
            let m = run_end(s, j3, CharClass::Alnum);
            lemma_run_end(s, j3, CharClass::Alnum);
            let j4 = run_end(s, m, CharClass::Space);
            lemma_run_end(s, m, CharClass::Space);
            if m > j3 && j4 < s.len() && s[j4] == '=' {
                let j5 = run_end(s, j4 + 1, CharClass::Space);
                lemma_run_end(s, j4 + 1, CharClass::Space);
                let e = run_end(s, j5, CharClass::Value);
                lemma_run_end(s, j5, CharClass::Value);
                lemma_run_end(s, e, CharClass::Space);
            }
        }
    }
}

/// What `u32::from_str` reads from `s`.
pub open spec fn parsed_u32(s: Seq<char>) -> Option<nat> {
    match parsed_usize(s) {
        Some(n) => if n <= u32::MAX {
            Some(n)
        } else {
            None
        },
        None => None,
    }
}

/// The entry for a `u32` constant with the value `val`: the number it
/// writes, or `None` for a placeholder in double braces filled in when the
/// shader is built; `None` (no entry) where it is neither.
pub open spec fn const_entry(name: Seq<char>, val: Seq<char>) -> Option<(Seq<char>, Option<u32>)> {
    if starts_with(val, seq!['{', '{']) && ends_with(val, seq!['}', '}']) {
        Some((name, None))
    } else {
        match parsed_u32(val) {
            Some(n) => Some((name, Some(n as u32))),
            None => None,
        }
    }
}

/// The `u32` (or `NonZeroU32`) constants that `s` declares from position
/// `i` on, in order; `None` where the value of one is neither a number
/// that fits nor a placeholder. A declaration is looked for at each
/// position, and the search goes on after each one found.
#[verifier::opaque]
pub open spec fn consts_from(s: Seq<char>, i: int) -> Option<Seq<(Seq<char>, Option<u32>)>>
    decreases s.len() - i,
{
    if i < 0 || i >= s.len() {
        Some(Seq::empty())
    } else {
        match const_match_at(s, i) {
            Some((end, name, ty, val)) => {
                proof {
                    lemma_const_match_bounds(s, i);
                }
                let rest = consts_from(s, end);
                if ty == seq!['u', '3', '2'] || ty == seq![
                    'N',
                    'o',
                    'n',
                    'Z',
                    'e',
                    'r',
                    'o',
                    'U',
                    '3',
                    '2',
                ] {
                    match const_entry(name, val) {
                        Some(e) => prepend(seq![e], rest),
                        None => None,
                    }
                } else {
                    rest
                }
            },
            None => consts_from(s, i + 1),
        }
    }
}

/// Whether `c` is of the class `k`.
fn in_class_of(c: char, k: CharClass) -> (r: bool)
    ensures
        r == in_class(c, k),
{
    let alnum = ('a' <= c && c <= 'z') || ('A' <= c && c <= 'Z') || ('0' <= c && c <= '9');
    match k {
        CharClass::Space => whitespace(c),
        CharClass::Name => alnum || c == '_',
        CharClass::Alnum => alnum,
        CharClass::Value => alnum || c == '_' || c == '{' || c == '}',
        CharClass::CommentText => c == ' ' || c == '\t' || !whitespace(c),
        CharClass::Attribute => whitespace(c) || alnum || c == '@' || c == '(' || c == ')' || c
            == '_' || c == ',' || c == '*' || c == '+' || c == '-' || c == '/' || c == '%',
        CharClass::Visible => !whitespace(c),
    }
}

/// Where the run of characters of class `k` that starts at `j` in `v` ends.
fn scan(v: &Vec<char>, j: usize, k: CharClass) -> (r: usize)
    requires
        j <= v@.len(),
    ensures
        r == run_end(v@, j as int, k),
        j <= r <= v@.len(),
{
    let mut i = j;
    proof {
        lemma_run_end(v@, j as int, k);
    }
    while i < v.len() && in_class_of(v[i], k)
        invariant
            j <= i <= v@.len(),
            run_end(v@, j as int, k) == run_end(v@, i as int, k),
        decreases v@.len() - i,
    {
        i = i + 1;
    }
    i
}

/// The constant declaration at `i` in `v`, as [`const_match_at`] finds it:
/// the position after it and where its name, type and value lie.
fn const_match(v: &Vec<char>, i: usize) -> (r: Option<(usize, usize, usize, usize, usize, usize, usize)>)
    requires
        i <= v@.len(),
    ensures
        r matches Some((end, a, b, c, d, e, f)) ==> a <= b <= v@.len() && c <= d <= v@.len() && e
            <= f <= v@.len() && i < end <= v@.len() && const_match_at(v@, i as int) == Some(
            (
                end as int,
                v@.subrange(a as int, b as int),
                v@.subrange(c as int, d as int),
                v@.subrange(e as int, f as int),
            ),
        ),
        r is None ==> const_match_at(v@, i as int) is None,
{
    let n = v.len();
    proof {
        lemma_const_match_bounds(v@, i as int);
        reveal_strlit("const");
    }
    if n - i < 5 || !range_is(v, i, i + 5, "const") {
        proof {
            assert("const"@ =~= seq!['c', 'o', 'n', 's', 't']);
        }
        return None;
    }
    proof {
        assert("const"@ =~= seq!['c', 'o', 'n', 's', 't']);
    }
    let j1 = scan(v, i + 5, CharClass::Space);
    let k = scan(v, j1, CharClass::Name);
    let j2 = scan(v, k, CharClass::Space);
    if !(k > j1 && j2 < n && v[j2] == ':') {
        return None;
    }
    let j3 = scan(v, j2 + 1, CharClass::Space);
    let m = scan(v, j3, CharClass::Alnum);
    let j4 = scan(v, m, CharClass::Space);
    if !(m > j3 && j4 < n && v[j4] == '=') {
        return None;
    }
    let j5 = scan(v, j4 + 1, CharClass::Space);
    let e = scan(v, j5, CharClass::Value);
    let j6 = scan(v, e, CharClass::Space);
    if e <= j5 {
        return None;
    }
    let end = if j6 < n && v[j6] == ';' {
        j6 + 1
    } else {
        j6
    };
    Some((end, j1, k, j3, m, j5, e))
}

/// The characters `lo..hi` of `v` as a string.
fn string_of(v: &Vec<char>, lo: usize, hi: usize) -> (r: String)
    requires
        lo <= hi <= v@.len(),
    ensures
        r@ == v@.subrange(lo as int, hi as int),
{
    let mut out = String::new();
    let ghost e = out@;
    push_range(&mut out, v, lo, hi);
    proof {
        assert(e =~= Seq::<char>::empty());
        assert(out@ =~= v@.subrange(lo as int, hi as int));
    }
    out
}

/// The `u32` (and `NonZeroU32`) constants that the shader `shader` declares,
/// in order, each with its value or `None` for a placeholder filled in when
/// the shader is built, as [`consts_from`] gives them; `None` where the value
/// of one is neither.
pub fn uint_consts(shader: &str) -> (r: Option<Vec<(String, Option<u32>)>>)
    ensures
        r matches Some(c) ==> consts_from(shader@, 0) == Some(consts_view(c@)),
        r is None ==> consts_from(shader@, 0) is None,
{
    let v = chars_of(shader);
    let n = v.len();
    let mut out: Vec<(String, Option<u32>)> = Vec::new();
    let mut i: usize = 0;
    proof {
        assert(consts_view(out@) =~= Seq::<(Seq<char>, Option<u32>)>::empty());
        assert(Seq::<(Seq<char>, Option<u32>)>::empty() + Seq::<(Seq<char>, Option<u32>)>::empty()
            =~= Seq::<(Seq<char>, Option<u32>)>::empty());
        match consts_from(v@, 0) {
            Some(x) => {
                assert(Seq::<(Seq<char>, Option<u32>)>::empty() + x =~= x);
            },
            None => {},
        }
    }
    while i < n
        invariant
            i <= n == v@.len(),
            v@ == shader@,
            consts_from(v@, 0) == prepend(consts_view(out@), consts_from(v@, i as int)),
        decreases n - i,
    {
        let ghost before = out@;
        proof {
            reveal(consts_from);
        }
        match const_match(&v, i) {
            Some((end, a, b, c, d, e, f)) => {
                let is_u32 = range_is(&v, c, d, "u32") || range_is(&v, c, d, "NonZeroU32");
                proof {
                    reveal_strlit("u32");
                    reveal_strlit("NonZeroU32");
                    assert("u32"@ =~= seq!['u', '3', '2']);
                    assert("NonZeroU32"@ =~= seq!['N', 'o', 'n', 'Z', 'e', 'r', 'o', 'U', '3', '2']);
                }
                if is_u32 {
                    let ghost val = v@.subrange(e as int, f as int);
                    let braces = f - e >= 2 && v[e] == '{' && v[e + 1] == '{' && v[f - 2] == '}'
                        && v[f - 1] == '}';
                    proof {
                        if f - e >= 2 {
                            assert(val.take(2) =~= seq![v@[e as int], v@[e + 1]]);
                            assert(val.skip(val.len() - 2) =~= seq![v@[f - 2], v@[f - 1]]);
                        }
                    }
                    let entry = if braces {
                        Some((string_of(&v, a, b), None))
                    } else {
                        match parse_usize(&v, e, f) {
                            Some(x) => if x <= u32::MAX as usize {
                                Some((string_of(&v, a, b), Some(x as u32)))
                            } else {
                                None
                            },
                            None => None,
                        }
                    };
                    match entry {
                        Some(en) => {
                            out.push(en);
                            proof {
                                assert(consts_view(out@) =~= consts_view(before) + seq![
                                    (en.0@, en.1),
                                ]);
                                match consts_from(v@, end as int) {
                                    Some(x) => {
                                        assert(consts_view(before) + (seq![(en.0@, en.1)] + x)
                                            =~= consts_view(out@) + x);
                                    },
                                    None => {},
                                }
                            }
                        },
                        None => return None,
                    }
                }
                i = end;
            },
            None => {
                i = i + 1;
            },
        }
    }
    proof {
        reveal(consts_from);
        assert(consts_view(out@) + Seq::<(Seq<char>, Option<u32>)>::empty() =~= consts_view(out@));
    }
    Some(out)
}

/// A line comment at `i` in `s`: `//`, then spaces, tabs and characters
/// that are not white space, up to a line break; the position after the
/// line break.
pub open spec fn comment_end(s: Seq<char>, i: int) -> Option<int> {
    if 0 <= i && i + 2 <= s.len() && s[i] == '/' && s[i + 1] == '/' {
        let r = run_end(s, i + 2, CharClass::CommentText);
        if r < s.len() && s[r] == '\n' {
            Some(r + 1)
        } else {
            None
        }
    } else {
        None
    }
}

/// `s` from position `i` on, each line comment (with its line break)
/// replaced by a line break.
#[verifier::opaque]
pub open spec fn without_comments(s: Seq<char>, i: int) -> Seq<char>
    decreases s.len() - i,
{
    if i < 0 || i >= s.len() {
        Seq::empty()
    } else {
        match comment_end(s, i) {
            Some(e) => {
                proof {
                    lemma_run_end(s, i + 2, CharClass::CommentText);
                }
                seq!['\n'] + without_comments(s, e)
            },
            None => seq![s[i]] + without_comments(s, i + 1),
        }
    }
}

/// The shader `shader` with each line comment (with its line break)
/// replaced by a line break, as [`without_comments`] gives it.
pub fn strip_comments(shader: &str) -> (r: String)
    ensures
        r@ == without_comments(shader@, 0),
{
    let v = chars_of(shader);
    let n = v.len();
    let mut out = String::new();
    let mut i: usize = 0;
    proof {
        assert(out@ + without_comments(v@, 0) =~= without_comments(v@, 0));
    }
    while i < n
        invariant
            i <= n == v@.len(),
            v@ == shader@,
            without_comments(v@, 0) == out@ + without_comments(v@, i as int),
        decreases n - i,
    {
        let ghost before = out@;
        proof {
            reveal(without_comments);
        }
        let mut end: usize = 0;
        let mut found = false;
        if n - i >= 2 && v[i] == '/' && v[i + 1] == '/' {
            let r = scan(&v, i + 2, CharClass::CommentText);
            if r < n && v[r] == '\n' {
                end = r + 1;
                found = true;
            }
        }
        if found {
            string_push(&mut out, '\n');
            proof {
                assert(comment_end(v@, i as int) == Some(end as int));
                assert(before + (seq!['\n'] + without_comments(v@, end as int)) =~= out@
                    + without_comments(v@, end as int));
            }
            i = end;
        } else {
            string_push(&mut out, v[i]);
            proof {
                assert(comment_end(v@, i as int) is None);
                assert(before + (seq![v@[i as int]] + without_comments(v@, i + 1)) =~= out@
                    + without_comments(v@, i + 1));
            }
            i = i + 1;
        }
    }
    proof {
        reveal(without_comments);
        assert(out@ + Seq::<char>::empty() =~= out@);
    }
    out
}

/// `fn`, white space, a name and, after perhaps more white space, `(`, at
/// `p` in `s`: where the name lies and the position after the `(`.
pub open spec fn fn_head(s: Seq<char>, p: int) -> Option<(int, int, int)> {
    if 0 <= p && p + 2 <= s.len() && s[p] == 'f' && s[p + 1] == 'n' {
        let w = run_end(s, p + 2, CharClass::Space);
        let e = run_end(s, w, CharClass::Name);
        let w2 = run_end(s, e, CharClass::Space);
        if w > p + 2 && e > w && w2 < s.len() && s[w2] == '(' {
            Some((w, e, w2 + 1))
        } else {
            None
        }
    } else {
        None
    }
}

/// The last position `q` with `i + 9 <= q <= p` that starts a function head.
pub open spec fn last_fn_head(s: Seq<char>, i: int, p: int) -> Option<(int, int, int)>
    decreases p - i,
{
    if p < i + 9 {
        None
    } else {
        match fn_head(s, p) {
            Some(t) => Some(t),
            None => last_fn_head(s, i, p - 1),
        }
    }
}

/// `@compute`.
pub open spec fn compute_marker() -> Seq<char> {
    seq!['@', 'c', 'o', 'm', 'p', 'u', 't', 'e']
}

/// A compute function at `i` in `s`: `@compute`, some attributes, and the
/// head of the function, taken as far on as it can be.
pub open spec fn compute_fn_at(s: Seq<char>, i: int) -> Option<(int, int, int)> {
    if occurs_at(s, compute_marker(), i) {
        last_fn_head(s, i, run_end(s, i + 8, CharClass::Attribute))
    } else {
        None
    }
}

/// A function head lies after where it starts, within `s`.
pub proof fn lemma_fn_head_bounds(s: Seq<char>, p: int)
    ensures
        fn_head(s, p) matches Some((a, b, e)) ==> p < a <= b <= e <= s.len(),
{
    if 0 <= p && p + 2 <= s.len() && s[p] == 'f' && s[p + 1] == 'n' {
        lemma_run_end(s, p + 2, CharClass::Space);
        let w = run_end(s, p + 2, CharClass::Space);
        lemma_run_end(s, w, CharClass::Name);
        let e = run_end(s, w, CharClass::Name);
        lemma_run_end(s, e, CharClass::Space);
    }
}

/// The last function head lies after `i`, within `s`.
pub proof fn lemma_last_fn_head_bounds(s: Seq<char>, i: int, p: int)
    ensures
        last_fn_head(s, i, p) matches Some((a, b, e)) ==> i < a <= b <= e <= s.len(),
    decreases p - i,
{
    if p >= i + 9 {
        lemma_fn_head_bounds(s, p);
        lemma_last_fn_head_bounds(s, i, p - 1);
    }
}

/// The names of the compute functions of `s` from position `i` on, in
/// order: each `@compute` is looked for at each position, and the search
/// goes on after each function head found.
#[verifier::opaque]
pub open spec fn compute_fns_from(s: Seq<char>, i: int) -> Seq<Seq<char>>
    decreases s.len() - i,
{
    if i < 0 || i >= s.len() {
        Seq::empty()
    } else {
        match compute_fn_at(s, i) {
            Some((a, b, e)) => {
                proof {
                    lemma_last_fn_head_bounds(s, i, run_end(s, i + 8, CharClass::Attribute));
                }
                seq![s.subrange(a, b)] + compute_fns_from(s, e)
            },
            None => compute_fns_from(s, i + 1),
        }
    }
}

/// The function head at `p` in `v`, as [`fn_head`] finds it.
fn fn_head_at(v: &Vec<char>, p: usize) -> (r: Option<(usize, usize, usize)>)
    requires
        p <= v@.len(),
    ensures
        r matches Some((a, b, e)) ==> fn_head(v@, p as int) == Some((a as int, b as int, e as int))
            && a <= b <= v@.len(),
        r is None ==> fn_head(v@, p as int) is None,
{
    let n = v.len();
    if !(n - p >= 2 && v[p] == 'f' && v[p + 1] == 'n') {
        return None;
    }
    let w = scan(v, p + 2, CharClass::Space);
    let e = scan(v, w, CharClass::Name);
    let w2 = scan(v, e, CharClass::Space);
    if w > p + 2 && e > w && w2 < n && v[w2] == '(' {
        Some((w, e, w2 + 1))
    } else {
        None
    }
}

/// The names of the compute functions that the shader `shader` defines, in
/// order, as [`compute_fns_from`] gives them.
pub fn compute_fns(shader: &str) -> (r: Vec<String>)
    ensures
        r@.map_values(|x: String| x@) == compute_fns_from(shader@, 0),
{
    let v = chars_of(shader);
    let n = v.len();
    let mut out: Vec<String> = Vec::new();
    let mut i: usize = 0;
    proof {
        reveal_strlit("@compute");
        assert("@compute"@ =~= compute_marker());
        assert(out@.map_values(|x: String| x@) + compute_fns_from(v@, 0) =~= compute_fns_from(v@, 0));
    }
    while i < n
        invariant
            i <= n == v@.len(),
            v@ == shader@,
            "@compute"@ == compute_marker(),
            compute_fns_from(v@, 0) == out@.map_values(|x: String| x@) + compute_fns_from(
                v@,
                i as int,
            ),
        decreases n - i,
    {
        let ghost before = out@.map_values(|x: String| x@);
        proof {
            reveal(compute_fns_from);
        }
        let mut head: Option<(usize, usize, usize)> = None;
        if n - i >= 8 && range_is(&v, i, i + 8, "@compute") {
            let r = scan(&v, i + 8, CharClass::Attribute);
            let mut p = r;
            proof {
                assert(occurs_at(v@, compute_marker(), i as int));
            }
            loop
                invariant_except_break
                    p <= r,
                    i + 8 <= p,
                    last_fn_head(v@, i as int, r as int) == last_fn_head(v@, i as int, p as int),
                    head is None,
                invariant
                    i + 8 <= r <= n == v@.len(),
                ensures
                    head matches Some((a, b, e)) ==> last_fn_head(v@, i as int, r as int) == Some(
                        (a as int, b as int, e as int),
                    ) && a <= b <= v@.len(),
                    head is None ==> last_fn_head(v@, i as int, r as int) is None,
                decreases p,
            {
                if p - i < 9 {
                    break;
                }
                match fn_head_at(&v, p) {
                    Some(t) => {
                        head = Some(t);
                        break;
                    },
                    None => {
                        p = p - 1;
                    },
                }
            }
            proof {
                assert(head matches Some((a, b, e)) ==> compute_fn_at(v@, i as int) == Some(
                    (a as int, b as int, e as int),
                ));
                assert(head is None ==> compute_fn_at(v@, i as int) is None);
            }
        } else {
            proof {
                if occurs_at(v@, compute_marker(), i as int) {
                    assert(v@.subrange(i as int, i + 8) == "@compute"@);
                }
            }
        }
        match head {
            Some((a, b, e)) => {
                proof {
                    lemma_last_fn_head_bounds(v@, i as int, run_end(v@, i + 8, CharClass::Attribute));
                }
                let name = string_of(&v, a, b);
                out.push(name);
                proof {
                    assert(out@.map_values(|x: String| x@) =~= before.push(v@.subrange(a as int, b as int)));
                    assert(before + (seq![v@.subrange(a as int, b as int)] + compute_fns_from(v@, e as int))
                        =~= out@.map_values(|x: String| x@) + compute_fns_from(v@, e as int));
                }
                i = e;
            },
            None => {
                i = i + 1;
            },
        }
    }
    proof {
        reveal(compute_fns_from);
        assert(out@.map_values(|x: String| x@) + Seq::<Seq<char>>::empty() =~= out@.map_values(
            |x: String| x@,
        ));
    }
    out
}

/// The zero of a scalar host type, as shader text, for a vector's fields.
pub open spec fn zero_of(ty: Seq<char>) -> Option<Seq<char>> {
    if ty == "f32"@ {
        Some("0.0"@)
    } else if ty == "u32"@ || ty == "i32"@ {
        Some("0"@)
    } else {
        None
    }
}

/// A vector of `n` (2, 3 or 4) fields of type `ty`, each `z`, as shader
/// text.
pub open spec fn vector_value(n: Seq<char>, ty: Seq<char>, z: Seq<char>) -> Option<Seq<char>> {
    if n == "2"@ {
        Some("vec2<"@ + ty + ">("@ + z + ", "@ + z + ")"@)
    } else if n == "3"@ {
        Some("vec3<"@ + ty + ">("@ + z + ", "@ + z + ", "@ + z + ")"@)
    } else if n == "4"@ {
        Some("vec4<"@ + ty + ">("@ + z + ", "@ + z + ", "@ + z + ", "@ + z + ")"@)
    } else {
        None
    }
}

/// A value of the host type `t`, as shader text, that stands in for a
/// constant filled in when the shader is built, so that the shader can be
/// checked before: zero, `false`, or one for a non-zero type, and a vector
/// of zeros; `None` for a type that has no such value.
pub open spec fn placeholder_value(t: Seq<char>) -> Option<Seq<char>> {
    if t == "f32"@ {
        Some("0.0"@)
    } else if t == "u32"@ || t == "i32"@ {
        Some("0"@)
    } else if t == "bool"@ {
        Some("false"@)
    } else if t == "std::num::NonZeroU32"@ || t == "std::num::NonZeroI32"@ {
        Some("1"@)
    } else if starts_with(t, "gputter::types::AlignedVec"@) {
        match angle_split(t.skip(26)) {
            Some((n, ty)) => match zero_of(ty) {
                Some(z) => vector_value(n, ty, z),
                None => None,
            },
            None => None,
        }
    } else {
        None
    }
}

/// The zero of the characters `lo..hi` of `v`, a scalar type.
fn zero_in(v: &Vec<char>, lo: usize, hi: usize) -> (r: Option<&'static str>)
    requires
        lo <= hi <= v@.len(),
    ensures
        r matches Some(x) ==> zero_of(v@.subrange(lo as int, hi as int)) == Some(x@),
        r is None ==> zero_of(v@.subrange(lo as int, hi as int)) is None,
{
    if range_is(v, lo, hi, "f32") {
        Some("0.0")
    } else if range_is(v, lo, hi, "u32") || range_is(v, lo, hi, "i32") {
        Some("0")
    } else {
        None
    }
}

/// A value of the host type `t` that stands in for a constant filled in
/// when the shader is built, as [`placeholder_value`] gives it.
pub fn placeholder(t: &str) -> (r: Option<String>)
    ensures
        r matches Some(x) ==> placeholder_value(t@) == Some(x@),
        r is None ==> placeholder_value(t@) is None,
{
    let v = chars_of(t);
    let n = v.len();
    proof {
        assert(v@.subrange(0, n as int) =~= t@);
    }
    if range_is(&v, 0, n, "f32") {
        return Some("0.0".to_owned());
    }
    if range_is(&v, 0, n, "u32") || range_is(&v, 0, n, "i32") {
        return Some("0".to_owned());
    }
    if range_is(&v, 0, n, "bool") {
        return Some("false".to_owned());
    }
    if range_is(&v, 0, n, "std::num::NonZeroU32") || range_is(&v, 0, n, "std::num::NonZeroI32") {
        return Some("1".to_owned());
    }
    if !range_starts_with(&v, 0, n, "gputter::types::AlignedVec") {
        return None;
    }
    proof {
        reveal_strlit("gputter::types::AlignedVec");
        assert(t@.skip(26) =~= v@.subrange(26, n as int));
    }
    let (p, q) = match angle_split_at(&v, 26, n) {
        Some(pq) => pq,
        None => return None,
    };
    let z = match zero_in(&v, p + 1, q) {
        Some(z) => z,
        None => return None,
    };
    let ghost ty = v@.subrange(p + 1, q as int);
    let mut out = String::new();
    if range_is(&v, 26, p, "2") {
        push_str(&mut out, "vec2<");
        push_range(&mut out, &v, p + 1, q);
        push_str(&mut out, ">(");
        push_str(&mut out, z);
        push_str(&mut out, ", ");
        push_str(&mut out, z);
        push_str(&mut out, ")");
        proof {
            assert(out@ =~= "vec2<"@ + ty + ">("@ + z@ + ", "@ + z@ + ")"@);
        }
    } else if range_is(&v, 26, p, "3") {
        push_str(&mut out, "vec3<");
        push_range(&mut out, &v, p + 1, q);
        push_str(&mut out, ">(");
        push_str(&mut out, z);
        push_str(&mut out, ", ");
        push_str(&mut out, z);
        push_str(&mut out, ", ");
        push_str(&mut out, z);
        push_str(&mut out, ")");
        proof {
            assert(out@ =~= "vec3<"@ + ty + ">("@ + z@ + ", "@ + z@ + ", "@ + z@ + ")"@);
        }
    } else if range_is(&v, 26, p, "4") {
        push_str(&mut out, "vec4<");
        push_range(&mut out, &v, p + 1, q);
        push_str(&mut out, ">(");
        push_str(&mut out, z);
        push_str(&mut out, ", ");
        push_str(&mut out, z);
        push_str(&mut out, ", ");
        push_str(&mut out, z);
        push_str(&mut out, ", ");
        push_str(&mut out, z);
        push_str(&mut out, ")");
        proof {
            assert(out@ =~= "vec4<"@ + ty + ">("@ + z@ + ", "@ + z@ + ", "@ + z@ + ", "@ + z@
                + ")"@);
        }
    } else {
        return None;
    }
    Some(out)
}

/// The note after a build-time constant that names the value to check the
/// shader with, at `j` in `s`: white space, `/!/`, white space, `sub`,
/// white space, `with`, white space, and the value (text without white
/// space); where the value lies.
pub open spec fn sub_note_at(s: Seq<char>, j: int) -> Option<(int, int)> {
    let a = run_end(s, j, CharClass::Space);
    if a + 3 <= s.len() && s.subrange(a, a + 3) == seq!['/', '!', '/'] {
        let b = run_end(s, a + 3, CharClass::Space);
        if b + 3 <= s.len() && s.subrange(b, b + 3) == seq!['s', 'u', 'b'] {
            let c = run_end(s, b + 3, CharClass::Space);
            if c + 4 <= s.len() && s.subrange(c, c + 4) == seq!['w', 'i', 't', 'h'] {
                let d = run_end(s, c + 4, CharClass::Space);
                let e = run_end(s, d, CharClass::Visible);
                if e > d {
                    Some((d, e))
                } else {
                    None
                }
            } else {
                None
            }
        } else {
            None
        }
    } else {
        None
    }
}

/// A constant filled in when the shader is built, declared at `i` in `s`:
/// `const`, white space, a name, `:`, a type, `=`, and a name in double
/// braces, with white space between them, perhaps a `;` and a note naming
/// the value to check the shader with. Where its type, its name (the one in
/// braces) and the note's value lie, and where the declaration ends (after
/// the line break that may follow it).
pub open spec fn build_const_at(s: Seq<char>, i: int) -> Option<
    (int, int, int, int, Option<(int, int)>, int),
> {
    if 0 <= i && i + 5 <= s.len() && s.subrange(i, i + 5) == seq!['c', 'o', 'n', 's', 't'] {
        let j1 = run_end(s, i + 5, CharClass::Space);
        let k = run_end(s, j1, CharClass::Name);
        let j2 = run_end(s, k, CharClass::Space);
        if j1 > i + 5 && k > j1 && j2 < s.len() && s[j2] == ':' {
            let j3 = run_end(s, j2 + 1, CharClass::Space);
            let m = run_end(s, j3, CharClass::Alnum);
            let j4 = run_end(s, m, CharClass::Space);
            if m > j3 && j4 < s.len() && s[j4] == '=' {
                let j5 = run_end(s, j4 + 1, CharClass::Space);
                let n0 = j5 + 2;
                let n1 = run_end(s, n0, CharClass::Name);
                if j5 + 2 <= s.len() && s[j5] == '{' && s[j5 + 1] == '{' && n1 > n0 && n1 + 2
                    <= s.len() && s[n1] == '}' && s[n1 + 1] == '}' {
                    let j6 = run_end(s, n1 + 2, CharClass::Space);
                    let j7 = if j6 < s.len() && s[j6] == ';' {
                        j6 + 1
                    } else {
                        j6
                    };
                    let note = sub_note_at(s, j7);
                    let j8 = match note {
                        Some((d, e)) => e,
                        None => j7,
                    };
                    let end = if j8 < s.len() && s[j8] == '\n' {
                        j8 + 1
                    } else {
                        j8
                    };
                    Some((j3, m, n0, n1, note, end))
                } else {
                    None
                }
            } else {
                None
            }
        } else {
            None
        }
    } else {
        None
    }
}

/// A note's value lies after where it is looked for, within `s`.
pub proof fn lemma_sub_note_bounds(s: Seq<char>, j: int)
    requires
        0 <= j <= s.len(),
    ensures
        sub_note_at(s, j) matches Some((d, e)) ==> j <= d < e <= s.len(),
{
    lemma_run_end(s, j, CharClass::Space);
    let a = run_end(s, j, CharClass::Space);
    if a + 3 <= s.len() && s.subrange(a, a + 3) == seq!['/', '!', '/'] {
        lemma_run_end(s, a + 3, CharClass::Space);
        let b = run_end(s, a + 3, CharClass::Space);
        if b + 3 <= s.len() && s.subrange(b, b + 3) == seq!['s', 'u', 'b'] {
            lemma_run_end(s, b + 3, CharClass::Space);
            let c = run_end(s, b + 3, CharClass::Space);
            if c + 4 <= s.len() && s.subrange(c, c + 4) == seq!['w', 'i', 't', 'h'] {
                lemma_run_end(s, c + 4, CharClass::Space);
                let d = run_end(s, c + 4, CharClass::Space);
                lemma_run_end(s, d, CharClass::Visible);
            }
        }
    }
}

/// A declaration lies after where it starts, within `s`.
pub proof fn lemma_build_const_bounds(s: Seq<char>, i: int)
    ensures
        build_const_at(s, i) matches Some((a, b, c, d, note, end)) ==> i < a <= b <= s.len() && i
            < c <= d <= s.len() && i < end <= s.len() && (note matches Some((x, y)) ==> x <= y
            <= s.len()),
{
    if 0 <= i && i + 5 <= s.len() && s.subrange(i, i + 5) == seq!['c', 'o', 'n', 's', 't'] {
        lemma_run_end(s, i + 5, CharClass::Space);
        let j1 = run_end(s, i + 5, CharClass::Space);
        lemma_run_end(s, j1, CharClass::Name);
        let k = run_end(s, j1, CharClass::Name);
        lemma_run_end(s, k, CharClass::Space);
        let j2 = run_end(s, k, CharClass::Space);
        if j1 > i + 5 && k > j1 && j2 < s.len() && s[j2] == ':' {
            lemma_run_end(s, j2 + 1, CharClass::Space);
            let j3 = run_end(s, j2 + 1, CharClass::Space);
            lemma_run_end(s, j3, CharClass::Alnum);
            let m = run_end(s, j3, CharClass::Alnum);
            lemma_run_end(s, m, CharClass::Space);
            let j4 = run_end(s, m, CharClass::Space);
            if m > j3 && j4 < s.len() && s[j4] == '=' {
                lemma_run_end(s, j4 + 1, CharClass::Space);
                let j5 = run_end(s, j4 + 1, CharClass::Space);
                if j5 + 2 <= s.len() {
                    lemma_run_end(s, j5 + 2, CharClass::Name);
                    let n1 = run_end(s, j5 + 2, CharClass::Name);
                    if n1 + 2 <= s.len() {
                        lemma_run_end(s, n1 + 2, CharClass::Space);
                        let j6 = run_end(s, n1 + 2, CharClass::Space);
                        let j7 = if j6 < s.len() && s[j6] == ';' {
                            j6 + 1
                        } else {
                            j6
                        };
                        lemma_sub_note_bounds(s, j7);
                    }
                }
            }
        }
    }
}

/// A constant filled in when the shader is built, as the host sees it.
pub struct BuildConst {
    /// The Rust type of its value.
    pub host_type: String,
    /// Its name.
    pub name: String,
    /// The value that the shader is checked with, where a note names one.
    pub check_with: Option<String>,
}

/// The constants filled in when the shader is built that `s` declares from
/// position `i` on, in order: each with its host type, its name and the
/// value of its note; `None` where the type of one has no host type.
#[verifier::opaque]
pub open spec fn build_consts_from(
    s: Seq<char>,
    i: int,
    consts: Seq<(Seq<char>, Option<u32>)>,
) -> Option<Seq<(Seq<char>, Seq<char>, Option<Seq<char>>)>>
    decreases s.len() - i,
{
    if i < 0 || i >= s.len() {
        Some(Seq::empty())
    } else {
        match build_const_at(s, i) {
            Some((a, b, c, d, note, end)) => {
                proof {
                    lemma_build_const_bounds(s, i);
                }
                match resolve_type(s.subrange(a, b), consts) {
                    Some(t) => {
                        let value = match note {
                            Some((x, y)) => Some(s.subrange(x, y)),
                            None => None,
                        };
                        prepend(seq![(t, s.subrange(c, d), value)], build_consts_from(s, end, consts))
                    },
                    None => None,
                }
            },
            None => build_consts_from(s, i + 1, consts),
        }
    }
}

/// The note naming the value to check the shader with, at `j` in `v`, as
/// [`sub_note_at`] finds it.
fn sub_note(v: &Vec<char>, j: usize) -> (r: Option<(usize, usize)>)
    requires
        j <= v@.len(),
    ensures
        r matches Some((d, e)) ==> sub_note_at(v@, j as int) == Some((d as int, e as int)),
        r is None ==> sub_note_at(v@, j as int) is None,
{
    let n = v.len();
    proof {
        reveal_strlit("/!/");
        reveal_strlit("sub");
        reveal_strlit("with");
        assert("/!/"@ =~= seq!['/', '!', '/']);
        assert("sub"@ =~= seq!['s', 'u', 'b']);
        assert("with"@ =~= seq!['w', 'i', 't', 'h']);
    }
    let a = scan(v, j, CharClass::Space);
    if !(n - a >= 3 && range_is(v, a, a + 3, "/!/")) {
        return None;
    }
    let b = scan(v, a + 3, CharClass::Space);
    if !(n - b >= 3 && range_is(v, b, b + 3, "sub")) {
        return None;
    }
    let c = scan(v, b + 3, CharClass::Space);
    if !(n - c >= 4 && range_is(v, c, c + 4, "with")) {
        return None;
    }
    let d = scan(v, c + 4, CharClass::Space);
    let e = scan(v, d, CharClass::Visible);
    if e > d {
        Some((d, e))
    } else {
        None
    }
}

/// The constant filled in when the shader is built declared at `i` in `v`,
/// as [`build_const_at`] finds it.
fn build_const(v: &Vec<char>, i: usize) -> (r: Option<(usize, usize, usize, usize, Option<(usize, usize)>, usize)>)
    requires
        i <= v@.len(),
    ensures
        r matches Some((a, b, c, d, note, end)) ==> build_const_at(v@, i as int) == Some(
            (
                a as int,
                b as int,
                c as int,
                d as int,
                match note {
                    Some((x, y)) => Some((x as int, y as int)),
                    None => None,
                },
                end as int,
            ),
        ),
        r is None ==> build_const_at(v@, i as int) is None,
{
    let n = v.len();
    proof {
        reveal_strlit("const");
        assert("const"@ =~= seq!['c', 'o', 'n', 's', 't']);
    }
    if n - i < 5 || !range_is(v, i, i + 5, "const") {
        return None;
    }
    let j1 = scan(v, i + 5, CharClass::Space);
    let k = scan(v, j1, CharClass::Name);
    let j2 = scan(v, k, CharClass::Space);
    if !(j1 > i + 5 && k > j1 && j2 < n && v[j2] == ':') {
        return None;
    }
    let j3 = scan(v, j2 + 1, CharClass::Space);
    let m = scan(v, j3, CharClass::Alnum);
    let j4 = scan(v, m, CharClass::Space);
    if !(m > j3 && j4 < n && v[j4] == '=') {
        return None;
    }
    let j5 = scan(v, j4 + 1, CharClass::Space);
    if !(n - j5 >= 2 && v[j5] == '{' && v[j5 + 1] == '{') {
        return None;
    }
    let n0 = j5 + 2;
    let n1 = scan(v, n0, CharClass::Name);
    if !(n1 > n0 && n - n1 >= 2 && v[n1] == '}' && v[n1 + 1] == '}') {
        return None;
    }
    let j6 = scan(v, n1 + 2, CharClass::Space);
    let j7 = if j6 < n && v[j6] == ';' {
        j6 + 1
    } else {
        j6
    };
    let note = sub_note(v, j7);
    proof {
        lemma_sub_note_bounds(v@, j7 as int);
    }
    let j8 = match note {
        Some((d, e)) => e,
        None => j7,
    };
    let end = if j8 < n && v[j8] == '\n' {
        j8 + 1
    } else {
        j8
    };
    Some((j3, m, n0, n1, note, end))
}

/// The constants as values.
pub open spec fn build_consts_view(c: Seq<BuildConst>) -> Seq<(Seq<char>, Seq<char>, Option<Seq<char>>)> {
    c.map_values(
        |b: BuildConst|
            (
                b.host_type@,
                b.name@,
                match b.check_with {
                    Some(x) => Some(x@),
                    None => None,
                },
            ),
    )
}

/// The constants filled in when the shader is built that `text` (a piece of
/// a shader between buffer markers) declares, in order, with the shader's
/// `u32` constants for array lengths, as [`build_consts_from`] gives them;
/// `None` where the type of one has no host type.
pub fn build_time_consts(text: &str, uint_consts: &Vec<(String, Option<u32>)>) -> (r: Option<
    Vec<BuildConst>,
>)
    ensures
        r matches Some(c) ==> build_consts_from(text@, 0, consts_view(uint_consts@)) == Some(
            build_consts_view(c@),
        ),
        r is None ==> build_consts_from(text@, 0, consts_view(uint_consts@)) is None,
{
    let v = chars_of(text);
    let n = v.len();
    let ghost cv = consts_view(uint_consts@);
    let mut out: Vec<BuildConst> = Vec::new();
    let mut i: usize = 0;
    proof {
        assert(build_consts_view(out@) =~= Seq::<(Seq<char>, Seq<char>, Option<Seq<char>>)>::empty());
        match build_consts_from(v@, 0, cv) {
            Some(x) => {
                assert(Seq::<(Seq<char>, Seq<char>, Option<Seq<char>>)>::empty() + x =~= x);
            },
            None => {},
        }
    }
    while i < n
        invariant
            i <= n == v@.len(),
            v@ == text@,
            cv == consts_view(uint_consts@),
            build_consts_from(v@, 0, cv) == prepend(
                build_consts_view(out@),
                build_consts_from(v@, i as int, cv),
            ),
        decreases n - i,
    {
        let ghost before = build_consts_view(out@);
        proof {
            reveal(build_consts_from);
        }
        match build_const(&v, i) {
            Some((a, b, c, d, note, end)) => {
                proof {
                    lemma_build_const_bounds(v@, i as int);
                }
                let host_type = match resolve(&v, a, b, uint_consts) {
                    Some(t) => t,
                    None => return None,
                };
                let name = string_of(&v, c, d);
                let check_with = match note {
                    Some((x, y)) => Some(string_of(&v, x, y)),
                    None => None,
                };
                let ghost entry = (
                    host_type@,
                    name@,
                    match &check_with {
                        Some(x) => Some(x@),
                        None => None,
                    },
                );
                out.push(BuildConst { host_type, name, check_with });
                proof {
                    assert(build_consts_view(out@) =~= before + seq![entry]);
                    match build_consts_from(v@, end as int, cv) {
                        Some(x) => {
                            assert(before + (seq![entry] + x) =~= build_consts_view(out@) + x);
                        },
                        None => {},
                    }
                }
                i = end;
            },
            None => {
                i = i + 1;
            },
        }
    }
    proof {
        reveal(build_consts_from);
        assert(build_consts_view(out@) + Seq::<(Seq<char>, Seq<char>, Option<Seq<char>>)>::empty()
            =~= build_consts_view(out@));
    }
    Some(out)
}

/// `s` with each brace doubled, as a format string writes braces.
pub open spec fn escape_braces(s: Seq<char>) -> Seq<char>
    decreases s.len(),
{
    if s.len() == 0 {
        Seq::empty()
    } else {
        let c = s.last();
        escape_braces(s.drop_last()) + if c == '{' || c == '}' {
            seq![c, c]
        } else {
            seq![c]
        }
    }
}

/// What replaces a constant filled in when the shader is built, declared at
/// `i` in `s`, given the text `x` that stands for its value: the
/// declaration up to its value, `x`, and the `;` and line break that
/// followed it, if any (the note is dropped). Only the declaration's text
/// is brace-escaped where `escape` holds.
pub open spec fn replaced_decl(s: Seq<char>, i: int, c: int, d: int, note: Option<(int, int)>, x: Seq<char>, escape: bool) -> Seq<char> {
    let j6 = run_end(s, d + 2, CharClass::Space);
    let semi = j6 < s.len() && s[j6] == ';';
    let j7 = if semi {
        j6 + 1
    } else {
        j6
    };
    let j8 = match note {
        Some((p, q)) => q,
        None => j7,
    };
    let nl = j8 < s.len() && s[j8] == '\n';
    let tail = (if semi {
        seq![';']
    } else {
        Seq::empty()
    }) + (if nl {
        seq!['\n']
    } else {
        Seq::empty()
    });
    let prefix = s.subrange(i, c - 2);
    if escape {
        escape_braces(prefix) + x + escape_braces(tail)
    } else {
        prefix + x + tail
    }
}

/// The text `s` from position `i` on with each constant filled in when the
/// shader is built replaced: for checking the shader (`mock`), by the value
/// its note names or else one that stands in for its type; for the host's
/// template, by its name in braces, with every other brace doubled. `None`
/// where the type of one has no host type, or (for checking) no value
/// stands in for it.
#[verifier::opaque]
pub open spec fn filled_from(s: Seq<char>, i: int, consts: Seq<(Seq<char>, Option<u32>)>, mock: bool) -> Option<Seq<char>>
    decreases s.len() - i,
{
    if i < 0 || i >= s.len() {
        Some(Seq::empty())
    } else {
        match build_const_at(s, i) {
            Some((a, b, c, d, note, end)) => {
                proof {
                    lemma_build_const_bounds(s, i);
                }
                match resolve_type(s.subrange(a, b), consts) {
                    Some(t) => {
                        let x = if mock {
                            match note {
                                Some((p, q)) => Some(s.subrange(p, q)),
                                None => placeholder_value(t),
                            }
                        } else {
                            Some(seq!['{'] + s.subrange(c, d) + seq!['}'])
                        };
                        match x {
                            Some(x) => prepend(
                                replaced_decl(s, i, c, d, note, x, !mock),
                                filled_from(s, end, consts, mock),
                            ),
                            None => None,
                        }
                    },
                    None => None,
                }
            },
            None => prepend(
                if mock {
                    seq![s[i]]
                } else {
                    escape_braces(seq![s[i]])
                },
                filled_from(s, i + 1, consts, mock),
            ),
        }
    }
}

/// Appends `c`, doubled where `escape` holds and it is a brace.
fn push_escaped(out: &mut String, c: char, escape: bool)
    ensures
        final(out)@ == old(out)@ + (if escape {
            escape_braces(seq![c])
        } else {
            seq![c]
        }),
{
    proof {
        assert(seq![c].drop_last() =~= Seq::<char>::empty());
        assert(seq![c].last() == c);
        assert(escape_braces(Seq::<char>::empty()) == Seq::<char>::empty());
    }
    string_push(out, c);
    if escape && (c == '{' || c == '}') {
        string_push(out, c);
        proof {
            assert(Seq::<char>::empty() + seq![c, c] =~= seq![c, c]);
        }
    } else {
        proof {
            assert(Seq::<char>::empty() + seq![c] =~= seq![c]);
        }
    }
}

/// Appends the characters `lo..hi` of `v`, brace-escaped where `escape`
/// holds.
fn push_range_escaped(out: &mut String, v: &Vec<char>, lo: usize, hi: usize, escape: bool)
    requires
        lo <= hi <= v@.len(),
    ensures
        final(out)@ == old(out)@ + (if escape {
            escape_braces(v@.subrange(lo as int, hi as int))
        } else {
            v@.subrange(lo as int, hi as int)
        }),
{
    let mut i = lo;
    proof {
        assert(v@.subrange(lo as int, lo as int) =~= Seq::<char>::empty());
    }
    while i < hi
        invariant
            lo <= i <= hi <= v@.len(),
            out@ == old(out)@ + (if escape {
                escape_braces(v@.subrange(lo as int, i as int))
            } else {
                v@.subrange(lo as int, i as int)
            }),
        decreases hi - i,
    {
        let ghost before = out@;
        let c = v[i];
        push_escaped(out, c, escape);
        proof {
            let t = v@.subrange(lo as int, i + 1);
            assert(t.drop_last() =~= v@.subrange(lo as int, i as int));
            assert(t.last() == c);
            assert(t =~= v@.subrange(lo as int, i as int).push(c));
            assert(escape_braces(t) == escape_braces(v@.subrange(lo as int, i as int)) + (if c == '{'
                || c == '}' {
                seq![c, c]
            } else {
                seq![c]
            }));
            assert(escape_braces(seq![c]) =~= (if c == '{' || c == '}' {
                seq![c, c]
            } else {
                seq![c]
            })) by {
                assert(seq![c].drop_last() =~= Seq::<char>::empty());
                assert(escape_braces(Seq::<char>::empty()) == Seq::<char>::empty());
            }
        }
        i = i + 1;
    }
}

/// Escaping a concatenation escapes each part.
pub proof fn lemma_escape_concat(a: Seq<char>, b: Seq<char>)
    ensures
        escape_braces(a + b) == escape_braces(a) + escape_braces(b),
    decreases b.len(),
{
    if b.len() == 0 {
        assert(a + b =~= a);
        assert(escape_braces(a) + escape_braces(b) =~= escape_braces(a));
    } else {
        let c = b.last();
        assert((a + b).drop_last() =~= a + b.drop_last());
        assert((a + b).last() == c);
        lemma_escape_concat(a, b.drop_last());
    }
}

/// Appends what replaces the constant declared at `i` in `v`, with `x` for
/// its value, as [`replaced_decl`] gives it.
fn push_replaced(
    out: &mut String,
    v: &Vec<char>,
    i: usize,
    c: usize,
    d: usize,
    note: Option<(usize, usize)>,
    x: &str,
    escape: bool,
)
    requires
        i + 2 <= c <= d,
        d + 2 <= v@.len(),
        note matches Some((p, q)) ==> q <= v@.len(),
    ensures
        final(out)@ == old(out)@ + replaced_decl(
            v@,
            i as int,
            c as int,
            d as int,
            match note {
                Some((p, q)) => Some((p as int, q as int)),
                None => None,
            },
            x@,
            escape,
        ),
{
    let n = v.len();
    let j6 = scan(v, d + 2, CharClass::Space);
    let semi = j6 < n && v[j6] == ';';
    let j7 = if semi {
        j6 + 1
    } else {
        j6
    };
    let j8 = match note {
        Some((p, q)) => q,
        None => j7,
    };
    let nl = j8 < n && v[j8] == '\n';
    push_range_escaped(out, v, i, c - 2, escape);
    push_str(out, x);
    if semi {
        push_escaped(out, ';', escape);
    }
    if nl {
        push_escaped(out, '\n', escape);
    }
    proof {
        let semi_s = if semi {
            seq![';']
        } else {
            Seq::<char>::empty()
        };
        let nl_s = if nl {
            seq!['\n']
        } else {
            Seq::<char>::empty()
        };
        lemma_escape_concat(semi_s, nl_s);
        assert(escape_braces(Seq::<char>::empty()) == Seq::<char>::empty());
        assert(seq![';'].drop_last() =~= Seq::<char>::empty());
        assert(seq!['\n'].drop_last() =~= Seq::<char>::empty());
        assert(escape_braces(seq![';']) =~= seq![';']);
        assert(escape_braces(seq!['\n']) =~= seq!['\n']);
    }
}

/// The text `text` (a piece of a shader between buffer markers) with each
/// constant filled in when the shader is built replaced, as [`filled_from`]
/// gives it: for checking the shader (`mock`) or for the host's template.
pub fn fill_build_consts(text: &str, uint_consts: &Vec<(String, Option<u32>)>, mock: bool) -> (r:
    Option<String>)
    ensures
        r matches Some(x) ==> filled_from(text@, 0, consts_view(uint_consts@), mock) == Some(x@),
        r is None ==> filled_from(text@, 0, consts_view(uint_consts@), mock) is None,
{
    let v = chars_of(text);
    let n = v.len();
    let ghost cv = consts_view(uint_consts@);
    let mut out = String::new();
    let mut i: usize = 0;
    proof {
        match filled_from(v@, 0, cv, mock) {
            Some(x) => {
                assert(out@ + x =~= x);
            },
            None => {},
        }
    }
    while i < n
        invariant
            i <= n == v@.len(),
            v@ == text@,
            cv == consts_view(uint_consts@),
            filled_from(v@, 0, cv, mock) == prepend(out@, filled_from(v@, i as int, cv, mock)),
        decreases n - i,
    {
        let ghost before = out@;
        proof {
            reveal(filled_from);
        }
        match build_const(&v, i) {
            Some((a, b, c, d, note, end)) => {
                proof {
                    lemma_build_const_bounds(v@, i as int);
                }
                let host = match resolve(&v, a, b, uint_consts) {
                    Some(t) => t,
                    None => return None,
                };
                let x = if mock {
                    match note {
                        Some((p, q)) => string_of(&v, p, q),
                        None => match placeholder(host.as_str()) {
                            Some(ph) => ph,
                            None => return None,
                        },
                    }
                } else {
                    let mut named = "{".to_owned();
                    push_range(&mut named, &v, c, d);
                    push_str(&mut named, "}");
                    proof {
                        reveal_strlit("{");
                        reveal_strlit("}");
                        assert(named@ =~= seq!['{'] + v@.subrange(c as int, d as int) + seq!['}']);
                    }
                    named
                };
                let ghost ghost_note = match note {
                    Some((p, q)) => Some((p as int, q as int)),
                    None => None,
                };
                push_replaced(&mut out, &v, i, c, d, note, x.as_str(), !mock);
                proof {
                    let repl = replaced_decl(v@, i as int, c as int, d as int, ghost_note, x@, !mock);
                    match filled_from(v@, end as int, cv, mock) {
                        Some(rest) => {
                            assert(before + (repl + rest) =~= out@ + rest);
                        },
                        None => {},
                    }
                }
                i = end;
            },
            None => {
                push_escaped(&mut out, v[i], !mock);
                proof {
                    let piece = if mock {
                        seq![v@[i as int]]
                    } else {
                        escape_braces(seq![v@[i as int]])
                    };
                    assert(out@ =~= before + piece);
                    match filled_from(v@, i + 1, cv, mock) {
                        Some(rest) => {
                            assert(before + (piece + rest) =~= out@ + rest);
                        },
                        None => {},
                    }
                }
                i = i + 1;
            },
        }
    }
    proof {
        reveal(filled_from);
        assert(out@ + Seq::<char>::empty() =~= out@);
    }
    Some(out)
}

/// The field that holds a buffer's binding in the host's struct for the
/// shader: its name, then the binding of a uniform buffer of its type, or of
/// a storage buffer of its type hidden from the host, with the shaders'
/// access, for the shader type `S`.
pub open spec fn buffer_field_text(name: Seq<char>, ty: Seq<char>, storage: StorageType) -> Seq<
    char,
> {
    match storage {
        StorageType::Uniform => "pub "@ + name
            + ": gputter::shader::BufferGroupBinding<gputter::buffers::uniform::UniformBuffer<"@ + ty
            + ">, S>"@,
        StorageType::Storage { shader_read_only } => "pub "@ + name
            + ": gputter::shader::BufferGroupBinding<gputter::buffers::storage::StorageBuffer<"@ + ty
            + ", gputter::buffers::storage::HostHidden, gputter::buffers::storage::"@ + (
        if shader_read_only {
            "ShaderReadOnly"@
        } else {
            "ShaderReadWrite"@
        }) + ">, S>"@,
    }
}

/// The field that holds the buffer `b`'s binding in the host's struct for
/// the shader, as [`buffer_field_text`] writes it.
pub fn buffer_field(b: &BufferDecl) -> (r: String)
    ensures
        r@ == buffer_field_text(b.name@, b.host_type@, b.storage),
{
    let mut out = "pub ".to_owned();
    push_str(&mut out, b.name.as_str());
    match b.storage {
        StorageType::Uniform => {
            push_str(
                &mut out,
                ": gputter::shader::BufferGroupBinding<gputter::buffers::uniform::UniformBuffer<",
            );
            push_str(&mut out, b.host_type.as_str());
            push_str(&mut out, ">, S>");
            proof {
                assert(out@ =~= buffer_field_text(b.name@, b.host_type@, b.storage));
            }
        },
        StorageType::Storage { shader_read_only } => {
            push_str(
                &mut out,
                ": gputter::shader::BufferGroupBinding<gputter::buffers::storage::StorageBuffer<",
            );
            push_str(&mut out, b.host_type.as_str());
            push_str(&mut out, ", gputter::buffers::storage::HostHidden, gputter::buffers::storage::");
            if shader_read_only {
                push_str(&mut out, "ShaderReadOnly");
            } else {
                push_str(&mut out, "ShaderReadWrite");
            }
            push_str(&mut out, ">, S>");
            proof {
                assert(out@ =~= buffer_field_text(b.name@, b.host_type@, b.storage));
            }
        },
    }
    out
}

/// The field that holds a constant filled in when the shader is built in
/// the host's struct for the shader: its name and its host type.
pub open spec fn const_field_text(name: Seq<char>, ty: Seq<char>) -> Seq<char> {
    "pub "@ + name + ": "@ + ty
}

/// The field that holds the constant `c` in the host's struct for the
/// shader, as [`const_field_text`] writes it.
pub fn const_field(c: &BuildConst) -> (r: String)
    ensures
        r@ == const_field_text(c.name@, c.host_type@),
{
    let mut out = "pub ".to_owned();
    push_str(&mut out, c.name.as_str());
    push_str(&mut out, ": ");
    push_str(&mut out, c.host_type.as_str());
    proof {
        assert(out@ =~= const_field_text(c.name@, c.host_type@));
    }
    out
}

/// `s` has `c` at position `i` and nowhere before: its first position.
proof fn lemma_first_index_at(s: Seq<char>, c: char, i: int)
    requires
        0 <= i < s.len(),
        s[i] == c,
        forall|j: int| 0 <= j < i ==> s[j] != c,
    ensures
        first_index(s, c) == Some(i),
{
    assert(first_at(s, c, i));
    let k = choose|k: int| first_at(s, c, k);
    lemma_first_unique(s, c, i, k);
}

/// A type that starts with `m`, the first letter of `mat`, is none of the
/// scalar types nor an array, atomic or vector type.
proof fn lemma_starts_with_m(s: Seq<char>)
    requires
        s.len() > 3,
        s[0] == 'm',
    ensures
        scalar_type(s) is None,
        !starts_with(s, "array<"@),
        !starts_with(s, "atomic<"@),
        !starts_with(s, "vec"@),
{
    reveal_strlit("f32");
    reveal_strlit("u32");
    reveal_strlit("i32");
    reveal_strlit("NonZeroU32");
    reveal_strlit("NonZeroI32");
    reveal_strlit("array<");
    reveal_strlit("atomic<");
    reveal_strlit("vec");
    assert(s[0] != "f32"@[0]);
    assert(s[0] != "u32"@[0]);
    assert(s[0] != "i32"@[0]);
    assert(s[0] != "NonZeroU32"@[0]);
    assert(s[0] != "NonZeroI32"@[0]);
    if s.len() >= 6 {
        assert(s.take(6)[0] != "array<"@[0]);
    }
    if s.len() >= 7 {
        assert(s.take(7)[0] != "atomic<"@[0]);
    }
    assert(s.take(3)[0] != "vec"@[0]);
}

/// `r<t>` splits at its angle brackets into `r` and `t`, where `r` holds no
/// `<` and `t` no `>`.
proof fn lemma_angle_split_written(r: Seq<char>, t: Seq<char>)
    requires
        forall|j: int| 0 <= j < r.len() ==> r[j] != '<',
        forall|j: int| 0 <= j < t.len() ==> t[j] != '>',
    ensures
        angle_split(r + "<"@ + t + ">"@) == Some((r, t)),
{
    reveal_strlit("<");
    reveal_strlit(">");
    let d = r + "<"@ + t + ">"@;
    assert forall|j: int| 0 <= j < r.len() implies d[j] != '<' by {
        assert(d[j] == r[j]);
    }
    lemma_first_index_at(d, '<', r.len() as int);
    let after = d.skip(r.len() as int + 1);
    assert(after =~= t + ">"@);
    assert forall|j: int| 0 <= j < t.len() implies after[j] != '>' by {
        assert(after[j] == t[j]);
    }
    lemma_first_index_at(after, '>', t.len() as int);
    assert(d.take(r.len() as int) =~= r);
    assert(d.subrange(r.len() as int + 1, r.len() as int + 1 + t.len()) =~= t);
}

/// Decimal digits hold neither angle bracket nor white space.
proof fn lemma_digits_plain(r: Seq<char>)
    requires
        all_digits(r),
    ensures
        forall|j: int| 0 <= j < r.len() ==> r[j] != '<' && r[j] != 'x' && !is_whitespace(r[j]),
{
    assert forall|j: int| 0 <= j < r.len() implies r[j] != '<' && r[j] != 'x' && !is_whitespace(
        r[j],
    ) by {
        assert('0' <= r[j] <= '9');
    }
}

/// The host type of a matrix whose second dimension `r` (in digits) is
/// followed by its scalar `t` (which holds no `>`) in angle brackets.
proof fn lemma_matrix_type_written(c: Seq<char>, r: Seq<char>, t: Seq<char>)
    requires
        all_digits(r),
        forall|i: int| 0 <= i < t.len() ==> t[i] != '>',
    ensures
        matrix_type(c, r + "<"@ + t + ">"@) == Some(aligned("Matrix"@, c + "x"@ + r, t)),
{
    reveal_strlit(">");
    let d2 = r + "<"@ + t + ">"@;
    assert(d2.last() == '>');
    assert(trim_end(d2) == d2);
    lemma_digits_plain(r);
    lemma_angle_split_written(r, t);
}

/// A type that starts with a letter of none of the scalar types, nor `a`,
/// is none of the scalar types nor an array or atomic type.
proof fn lemma_not_scalar_array_atomic(s: Seq<char>)
    requires
        s.len() > 0,
        s[0] != 'f' && s[0] != 'u' && s[0] != 'i' && s[0] != 'N' && s[0] != 'a',
    ensures
        scalar_type(s) is None,
        !starts_with(s, "array<"@),
        !starts_with(s, "atomic<"@),
{
    reveal_strlit("f32");
    reveal_strlit("u32");
    reveal_strlit("i32");
    reveal_strlit("NonZeroU32");
    reveal_strlit("NonZeroI32");
    reveal_strlit("array<");
    reveal_strlit("atomic<");
    assert(s[0] != "f32"@[0]);
    assert(s[0] != "u32"@[0]);
    assert(s[0] != "i32"@[0]);
    assert(s[0] != "NonZeroU32"@[0]);
    assert(s[0] != "NonZeroI32"@[0]);
    if s.len() >= 6 {
        assert(s.take(6)[0] != "array<"@[0]);
    }
    if s.len() >= 7 {
        assert(s.take(7)[0] != "atomic<"@[0]);
    }
}

/// A vector type written `vecN<T>`, its size `N` in decimal digits and its
/// scalar `T` (which holds no `>`), is held on the host by
/// `gputter::types::AlignedVecN<T>`, of the same size and scalar.
#[verifier::rlimit(40)]
pub proof fn law_vector_keeps_size_and_scalar(
    n: Seq<char>,
    t: Seq<char>,
    consts: Seq<(Seq<char>, Option<u32>)>,
)
    requires
        all_digits(n),
        forall|i: int| 0 <= i < t.len() ==> t[i] != '>',
    ensures
        resolve_type("vec"@ + n + "<"@ + t + ">"@, consts) == Some(
            "gputter::types::AlignedVec"@ + n + "<"@ + t + ">"@,
        ),
{
    reveal_strlit("vec");
    reveal_strlit("<");
    reveal_strlit(">");
    reveal_strlit("Vec");
    reveal_strlit("gputter::types::Aligned");
    reveal_strlit("gputter::types::AlignedVec");
    let s = "vec"@ + n + "<"@ + t + ">"@;
    assert(s[0] == 'v');
    lemma_not_scalar_array_atomic(s);
    assert(s.take(3) =~= "vec"@);
    assert(starts_with(s, "vec"@));
    let inner = n + "<"@ + t + ">"@;
    assert(s.skip(3) =~= inner);
    lemma_digits_plain(n);
    assert(inner[0] == n[0]);
    assert(trim_start(inner) == inner);
    assert(inner.last() == '>');
    assert(trim_end(inner) == inner);
    lemma_angle_split_written(n, t);
    assert(vector_type(trim(inner)) == Some(aligned("Vec"@, n, t)));
    assert(aligned("Vec"@, n, t) =~= "gputter::types::AlignedVec"@ + n + "<"@ + t + ">"@);
}

/// A matrix type in its short form `matCxRk`, with `C` in decimal digits,
/// `R` one digit and `k` the letter of a scalar (`f`, `u` or `i`), is held
/// on the host by `gputter::types::AlignedMatrixCxR<S>`, its dimensions in
/// the order written and `S` the scalar that `k` names.
pub proof fn law_matrix_short_form(
    c: Seq<char>,
    r: char,
    k: char,
    consts: Seq<(Seq<char>, Option<u32>)>,
)
    requires
        all_digits(c),
        '0' <= r <= '9',
        k == 'f' || k == 'u' || k == 'i',
    ensures
        resolve_type("mat"@ + c + "x"@ + seq![r, k], consts) == Some(
            "gputter::types::AlignedMatrix"@ + c + "x"@ + seq![r] + "<"@ + short_scalar(k).unwrap()
                + ">"@,
        ),
{
    reveal_strlit("<");
    reveal_strlit(">");
    reveal_strlit("Matrix");
    reveal_strlit("gputter::types::Aligned");
    reveal_strlit("gputter::types::AlignedMatrix");
    let d2 = seq![r, k];
    lemma_resolve_matrix(c, d2, consts);
    assert(!is_whitespace(d2.last()));
    assert(trim_end(d2) == d2);
    assert(!(exists|i: int| first_at(d2, '<', i)));
    assert(angle_split(d2) is None);
    assert(matrix_type(c, d2) == short_form("Matrix"@, c + "x"@, d2));
    assert(aligned("Matrix"@, c + "x"@ + seq![r], short_scalar(k).unwrap()) =~= "gputter::types::AlignedMatrix"@
        + c + "x"@ + seq![r] + "<"@ + short_scalar(k).unwrap() + ">"@);
}

/// A type written `mat`, digits `c`, `x` and then `d2` is read as a matrix
/// of first dimension `c` and second `d2`.
#[verifier::rlimit(40)]
proof fn lemma_resolve_matrix(c: Seq<char>, d2: Seq<char>, consts: Seq<(Seq<char>, Option<u32>)>)
    requires
        all_digits(c),
    ensures
        resolve_type("mat"@ + c + "x"@ + d2, consts) == matrix_type(c, d2),
{
    reveal_strlit("mat");
    reveal_strlit("x");
    let s = "mat"@ + c + "x"@ + d2;
    assert(s[0] == 'm');
    lemma_starts_with_m(s);
    assert(s.take(3) =~= "mat"@);
    assert(starts_with(s, "mat"@));
    let rest = s.skip(3);
    assert(rest =~= c + "x"@ + d2);
    lemma_digits_plain(c);
    assert forall|j: int| 0 <= j < c.len() implies rest[j] != 'x' by {
        assert(rest[j] == c[j]);
    }
    lemma_first_index_at(rest, 'x', c.len() as int);
    let q = c.len() as int;
    assert(rest.take(q) =~= c);
    assert(rest.skip(q + 1) =~= d2);
}

/// A matrix type written `matCxR<T>`, its dimensions `C` and `R` in decimal
/// digits and its scalar `T` (which holds no `>`), is held on the host by
/// `gputter::types::AlignedMatrixCxR<T>`: the dimensions stay in the order
/// in which they are written.
pub proof fn law_matrix_dimensions_in_order(
    c: Seq<char>,
    r: Seq<char>,
    t: Seq<char>,
    consts: Seq<(Seq<char>, Option<u32>)>,
)
    requires
        all_digits(c),
        all_digits(r),
        forall|i: int| 0 <= i < t.len() ==> t[i] != '>',
    ensures
        resolve_type("mat"@ + c + "x"@ + r + "<"@ + t + ">"@, consts) == Some(
            "gputter::types::AlignedMatrix"@ + c + "x"@ + r + "<"@ + t + ">"@,
        ),
{
    reveal_strlit("<");
    reveal_strlit(">");
    reveal_strlit("Matrix");
    reveal_strlit("gputter::types::Aligned");
    reveal_strlit("gputter::types::AlignedMatrix");
    let d2 = r + "<"@ + t + ">"@;
    assert("mat"@ + c + "x"@ + r + "<"@ + t + ">"@ =~= "mat"@ + c + "x"@ + d2);
    lemma_resolve_matrix(c, d2, consts);
    lemma_matrix_type_written(c, r, t);
    assert(aligned("Matrix"@, c + "x"@ + r, t) =~= "gputter::types::AlignedMatrix"@ + c + "x"@ + r
        + "<"@ + t + ">"@);
}

} // verus!
