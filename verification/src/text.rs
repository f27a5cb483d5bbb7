//! Text primitives of the input-file reader and the writers: decimal
//! numerals, whitespace trimming, field splitting, and the number syntaxes
//! that the reader accepts.

use vstd::prelude::*;

verus! {

/// The ASCII digit for `d`, where `d < 10`.
pub open spec fn digit_char(d: nat) -> char {
    (48 + d) as char
}

/// The decimal numeral of `n`, most significant digit first, without
/// leading zeros (the way `{}` prints an unsigned integer).
pub open spec fn decimal(n: nat) -> Seq<char>
    decreases n,
{
    if n < 10 {
        seq![digit_char(n)]
    } else {
        decimal(n / 10).push(digit_char(n % 10))
    }
}

/// Appends one character to a string, by `String::push`.
///
/// The contract claims what the documentation of `String::push` says: the
/// characters afterwards are those before, followed by `c`.
#[verifier::external_body]
pub(crate) fn push_char(s: &mut String, c: char)
    ensures
        final(s)@ == old(s)@.push(c),
{
    s.push(c)
}

/// Appends the decimal numeral of `n` to `s`.
pub(crate) fn push_decimal(s: &mut String, n: usize)
    ensures
        final(s)@ == old(s)@ + decimal(n as nat),
    decreases n,
{
    if n >= 10 {
        push_decimal(s, n / 10);
    }
    let d: u8 = (n % 10) as u8;
    push_char(s, (48u8 + d) as char);
    proof {
        assert(old(s)@ + decimal(n as nat) =~= old(s)@ + (if n >= 10 { decimal((n / 10) as nat) } else { seq![] }) + seq![digit_char((n % 10) as nat)]);
    }
}

/// The decimal numeral of `n` as a new string.
pub(crate) fn decimal_string(n: usize) -> (s: String)
    ensures
        s@ == decimal(n as nat),
{
    let mut s = String::new();
    push_decimal(&mut s, n);
    proof {
        assert(s@ =~= decimal(n as nat));
    }
    s
}

} // verus!

verus! {

/// The characters of `s`, in order.
pub(crate) fn chars_of(s: &str) -> (v: Vec<char>)
    ensures
        v@ == s@,
{
    let mut v: Vec<char> = Vec::new();
    for c in it: s.chars()
        invariant
            v@ == it.seq().take(it.index() as int),
            it.seq() == s@,
    {
        v.push(c);
    }
    v
}

} // verus!

verus! {

/// Unicode `White_Space`, the characters that `str::trim` removes.
pub open spec fn is_whitespace(c: char) -> bool {
    let u = c as u32;
    ||| 9 <= u <= 13
    ||| u == 0x20
    ||| u == 0x85
    ||| u == 0xA0
    ||| u == 0x1680
    ||| 0x2000 <= u <= 0x200A
    ||| u == 0x2028
    ||| u == 0x2029
    ||| u == 0x202F
    ||| u == 0x205F
    ||| u == 0x3000
}

/// `s` without its leading whitespace.
pub open spec fn trim_start(s: Seq<char>) -> Seq<char>
    decreases s.len(),
{
    if s.len() > 0 && is_whitespace(s[0]) {
        trim_start(s.drop_first())
    } else {
        s
    }
}

/// `s` without its trailing whitespace.
pub open spec fn trim_end(s: Seq<char>) -> Seq<char>
    decreases s.len(),
{
    if s.len() > 0 && is_whitespace(s.last()) {
        trim_end(s.drop_last())
    } else {
        s
    }
}

/// `s` without leading and trailing whitespace (`str::trim`).
pub open spec fn trim(s: Seq<char>) -> Seq<char> {
    trim_end(trim_start(s))
}

/// The pieces of `s` between commas (`str::split(',')`): one more piece
/// than there are commas, empty pieces included.
pub open spec fn split_fields(s: Seq<char>) -> Seq<Seq<char>>
    decreases s.len(),
{
    if s.len() == 0 {
        seq![Seq::<char>::empty()]
    } else {
        let init = split_fields(s.drop_last());
        if s.last() == ',' {
            init.push(Seq::<char>::empty())
        } else {
            init.update(init.len() - 1, init.last().push(s.last()))
        }
    }
}

/// The comma-separated fields of `s`, each trimmed.
pub open spec fn fields(s: Seq<char>) -> Seq<Seq<char>> {
    split_fields(s).map_values(|f: Seq<char>| trim(f))
}

/// The text of each range of `v`.
pub open spec fn range_texts(v: Seq<char>, r: Seq<(usize, usize)>) -> Seq<Seq<char>> {
    r.map_values(|p: (usize, usize)| v.subrange(p.0 as int, p.1 as int))
}

/// `char::is_whitespace`.
pub(crate) fn is_whitespace_char(c: char) -> (b: bool)
    ensures
        b == is_whitespace(c),
{
    let u = c as u32;
    (9 <= u && u <= 13) || u == 0x20 || u == 0x85 || u == 0xA0 || u == 0x1680 || (0x2000 <= u && u
        <= 0x200A) || u == 0x2028 || u == 0x2029 || u == 0x202F || u == 0x205F || u == 0x3000
}

/// The bounds of the trimmed text of `v[lo..hi]`.
pub(crate) fn trim_range(v: &Vec<char>, lo: usize, hi: usize) -> (r: (usize, usize))
    requires
        lo <= hi <= v@.len(),
    ensures
        lo <= r.0 <= r.1 <= hi,
        v@.subrange(r.0 as int, r.1 as int) == trim(v@.subrange(lo as int, hi as int)),
{
    let mut a = lo;
    while a < hi && is_whitespace_char(v[a])
        invariant
            lo <= a <= hi,
            hi <= v@.len(),
            trim_start(v@.subrange(lo as int, hi as int)) == trim_start(
                v@.subrange(a as int, hi as int),
            ),
        decreases hi - a,
    {
        assert(v@.subrange(a as int, hi as int).drop_first() =~= v@.subrange(a + 1, hi as int));
        a += 1;
    }
    assert(trim_start(v@.subrange(a as int, hi as int)) == v@.subrange(a as int, hi as int));
    let mut b = hi;
    while b > a && is_whitespace_char(v[b - 1])
        invariant
            lo <= a <= b <= hi,
            hi <= v@.len(),
            trim_end(v@.subrange(a as int, hi as int)) == trim_end(v@.subrange(a as int, b as int)),
        decreases b - a,
    {
        assert(v@.subrange(a as int, b as int).drop_last() =~= v@.subrange(a as int, b - 1));
        b -= 1;
    }
    assert(trim_end(v@.subrange(a as int, b as int)) == v@.subrange(a as int, b as int));
    (a, b)
}

/// The ranges of the comma-separated pieces of `v[lo..hi]`.
pub(crate) fn split_range(v: &Vec<char>, lo: usize, hi: usize) -> (r: Vec<(usize, usize)>)
    requires
        lo <= hi <= v@.len(),
    ensures
        range_texts(v@, r@) == split_fields(v@.subrange(lo as int, hi as int)),
        forall|k: int| 0 <= k < r@.len() ==> lo <= #[trigger] r@[k].0 <= r@[k].1 <= hi,
{
    let mut r: Vec<(usize, usize)> = Vec::new();
    let mut start = lo;
    let mut i = lo;
    assert(v@.subrange(lo as int, lo as int) =~= Seq::<char>::empty());
    assert(range_texts(v@, r@).push(v@.subrange(start as int, i as int)) =~= seq![
        Seq::<char>::empty(),
    ]);
    while i < hi
        invariant
            lo <= start <= i <= hi,
            hi <= v@.len(),
            range_texts(v@, r@).push(v@.subrange(start as int, i as int)) == split_fields(
                v@.subrange(lo as int, i as int),
            ),
            forall|k: int| 0 <= k < r@.len() ==> lo <= #[trigger] r@[k].0 <= r@[k].1 <= hi,
        decreases hi - i,
    {
        let ghost s = v@.subrange(lo as int, i + 1);
        assert(s.drop_last() =~= v@.subrange(lo as int, i as int));
        assert(s.last() == v@[i as int]);
        if v[i] == ',' {
            let ghost before = range_texts(v@, r@);
            r.push((start, i));
            assert(range_texts(v@, r@) =~= before.push(v@.subrange(start as int, i as int)));
            start = i + 1;
            assert(v@.subrange(start as int, i + 1) =~= Seq::<char>::empty());
        } else {
            assert(v@.subrange(start as int, i as int).push(v@[i as int]) =~= v@.subrange(
                start as int,
                i + 1,
            ));
        }
        i += 1;
    }
    let ghost before = range_texts(v@, r@);
    r.push((start, hi));
    assert(range_texts(v@, r@) =~= before.push(v@.subrange(start as int, hi as int)));
    r
}

/// The ranges of the trimmed comma-separated fields of `v[lo..hi]`.
pub(crate) fn field_ranges(v: &Vec<char>, lo: usize, hi: usize) -> (r: Vec<(usize, usize)>)
    requires
        lo <= hi <= v@.len(),
    ensures
        range_texts(v@, r@) == fields(v@.subrange(lo as int, hi as int)),
        forall|k: int| 0 <= k < r@.len() ==> lo <= #[trigger] r@[k].0 <= r@[k].1 <= hi,
{
    let pieces = split_range(v, lo, hi);
    let mut r: Vec<(usize, usize)> = Vec::new();
    let n = pieces.len();
    for k in 0..n
        invariant
            n == pieces@.len(),
            hi <= v@.len(),
            range_texts(v@, pieces@) == split_fields(v@.subrange(lo as int, hi as int)),
            forall|j: int| 0 <= j < pieces@.len() ==> lo <= #[trigger] pieces@[j].0 <= pieces@[j].1 <= hi,
            r@.len() == k,
            forall|j: int| 0 <= j < k ==> lo <= #[trigger] r@[j].0 <= r@[j].1 <= hi,
            forall|j: int|
                0 <= j < k ==> #[trigger] v@.subrange(r@[j].0 as int, r@[j].1 as int) == trim(
                    v@.subrange(pieces@[j].0 as int, pieces@[j].1 as int),
                ),
    {
        let (a, b) = pieces[k];
        let t = trim_range(v, a, b);
        r.push(t);
    }
    assert(range_texts(v@, r@) =~= fields(v@.subrange(lo as int, hi as int)));
    r
}

} // verus!

verus! {

/// An ASCII decimal digit.
pub open spec fn is_digit(c: char) -> bool {
    48 <= (c as u32) <= 57
}

/// Every character of `s` is an ASCII decimal digit.
pub open spec fn all_digits(s: Seq<char>) -> bool {
    forall|i: int| 0 <= i < s.len() ==> is_digit(#[trigger] s[i])
}

/// The value of the decimal numeral `s`.
pub open spec fn digits_value(s: Seq<char>) -> int
    decreases s.len(),
{
    if s.len() == 0 {
        0
    } else {
        digits_value(s.drop_last()) * 10 + ((s.last() as u32) - 48)
    }
}

/// `s` without one leading `+`.
pub open spec fn strip_plus(s: Seq<char>) -> Seq<char> {
    if s.len() > 0 && s[0] == '+' {
        s.drop_first()
    } else {
        s
    }
}

/// `s` without one leading `+` or `-`.
pub open spec fn strip_sign(s: Seq<char>) -> Seq<char> {
    if s.len() > 0 && (s[0] == '+' || s[0] == '-') {
        s.drop_first()
    } else {
        s
    }
}

/// What `s.parse::<usize>()` gives: an optional `+`, then one or more
/// ASCII digits whose value fits in `usize`; anything else is rejected.
pub open spec fn parse_usize(s: Seq<char>) -> Option<usize> {
    let d = strip_plus(s);
    if d.len() > 0 && all_digits(d) && digits_value(d) <= usize::MAX {
        Some(digits_value(d) as usize)
    } else {
        None
    }
}

proof fn lemma_digits_value_nonneg(s: Seq<char>)
    requires
        all_digits(s),
    ensures
        digits_value(s) >= 0,
    decreases s.len(),
{
    if s.len() > 0 {
        assert(all_digits(s.drop_last()));
        lemma_digits_value_nonneg(s.drop_last());
    }
}

proof fn lemma_digits_value_grows(s: Seq<char>, j: int, k: int)
    requires
        all_digits(s),
        0 <= j <= k <= s.len(),
    ensures
        digits_value(s.take(j)) <= digits_value(s.take(k)),
    decreases k - j,
{
    if j < k {
        lemma_digits_value_grows(s, j, k - 1);
        assert(s.take(k).drop_last() =~= s.take(k - 1));
        assert(all_digits(s.take(k - 1)));
        lemma_digits_value_nonneg(s.take(k - 1));
        assert(is_digit(s[k - 1]));
    }
}

/// `v[lo..hi].parse::<usize>()`.
pub(crate) fn parse_usize_range(v: &Vec<char>, lo: usize, hi: usize) -> (r: Option<usize>)
    requires
        lo <= hi <= v@.len(),
    ensures
        r == parse_usize(v@.subrange(lo as int, hi as int)),
{
    let ghost s = v@.subrange(lo as int, hi as int);
    let mut p = lo;
    if p < hi && v[p] == '+' {
        p += 1;
        assert(s.drop_first() =~= v@.subrange(p as int, hi as int));
    }
    let ghost d = v@.subrange(p as int, hi as int);
    assert(strip_plus(s) == d);
    if p == hi {
        return None;
    }
    let mut val: usize = 0;
    let mut k = p;
    assert(d.take(0) =~= Seq::<char>::empty());
    while k < hi
        invariant
            lo <= p <= k <= hi <= v@.len(),
            d == v@.subrange(p as int, hi as int),
            strip_plus(v@.subrange(lo as int, hi as int)) == d,
            all_digits(d.take(k - p)),
            val == digits_value(d.take(k - p)),
        decreases hi - k,
    {
        let u = v[k] as u32;
        if u < 48 || u > 57 {
            assert(!is_digit(d[k - p]));
            return None;
        }
        assert(d.take(k - p + 1).drop_last() =~= d.take(k - p));
        assert(all_digits(d.take(k - p + 1)));
        let digit: usize = (u - 48) as usize;
        match val.checked_mul(10) {
            Some(t) => match t.checked_add(digit) {
                Some(n) => {
                    val = n;
                },
                None => {
                    proof {
                        if all_digits(d) {
                            lemma_digits_value_grows(d, k - p + 1, d.len() as int);
                            assert(d.take(d.len() as int) =~= d);
                        }
                    }
                    return None;
                },
            },
            None => {
                proof {
                    lemma_digits_value_nonneg(d.take(k - p));
                    if all_digits(d) {
                        lemma_digits_value_grows(d, k - p + 1, d.len() as int);
                        assert(d.take(d.len() as int) =~= d);
                    }
                }
                return None;
            },
        }
        k += 1;
    }
    assert(d.take(k - p) =~= d);
    Some(val)
}

/// The number of leading ASCII digits of `s`.
pub open spec fn leading_digits(s: Seq<char>) -> nat
    decreases s.len(),
{
    if s.len() > 0 && is_digit(s[0]) {
        1 + leading_digits(s.drop_first())
    } else {
        0
    }
}

/// An exponent part: `e` or `E`, an optional sign, one or more digits.
pub open spec fn is_exponent(e: Seq<char>) -> bool {
    &&& e.len() > 0
    &&& (e[0] == 'e' || e[0] == 'E')
    &&& strip_sign(e.drop_first()).len() > 0
    &&& all_digits(strip_sign(e.drop_first()))
}

/// An unsigned decimal number: digits, optionally a point and more digits,
/// with at least one digit in all, then optionally an exponent part.
pub open spec fn is_decimal_number(r: Seq<char>) -> bool {
    let a = leading_digits(r);
    let after_int = r.skip(a as int);
    let has_point = after_int.len() > 0 && after_int[0] == '.';
    let frac = if has_point {
        after_int.drop_first()
    } else {
        after_int
    };
    let b = if has_point {
        leading_digits(frac)
    } else {
        0
    };
    let rest = frac.skip(b as int);
    a + b >= 1 && (rest.len() == 0 || is_exponent(rest))
}

/// `s` equals the lower-case word `lower`, letter case ignored, where
/// `upper` is the same word in upper case.
pub open spec fn equals_ignoring_case(s: Seq<char>, lower: Seq<char>, upper: Seq<char>) -> bool {
    &&& s.len() == lower.len()
    &&& forall|i: int| 0 <= i < s.len() ==> #[trigger] s[i] == lower[i] || s[i] == upper[i]
}

/// `inf`, `infinity` or `nan`, letter case ignored.
pub open spec fn is_inf_nan_word(r: Seq<char>) -> bool {
    ||| equals_ignoring_case(r, seq!['i', 'n', 'f'], seq!['I', 'N', 'F'])
    ||| equals_ignoring_case(
        r,
        seq!['i', 'n', 'f', 'i', 'n', 'i', 't', 'y'],
        seq!['I', 'N', 'F', 'I', 'N', 'I', 'T', 'Y'],
    )
    ||| equals_ignoring_case(r, seq!['n', 'a', 'n'], seq!['N', 'A', 'N'])
}

/// The text that `s.parse::<f64>()` accepts, as the standard library
/// documents it: an optional sign, then `inf`, `infinity`, `nan` (any
/// letter case) or a decimal number with an optional exponent.
pub open spec fn is_float_literal(s: Seq<char>) -> bool {
    let r = strip_sign(s);
    r.len() > 0 && (is_inf_nan_word(r) || is_decimal_number(r))
}

fn is_digit_char(c: char) -> (b: bool)
    ensures
        b == is_digit(c),
{
    let u = c as u32;
    48 <= u && u <= 57
}

/// The end of the run of digits that starts at `lo`.
fn skip_digits(v: &Vec<char>, lo: usize, hi: usize) -> (q: usize)
    requires
        lo <= hi <= v@.len(),
    ensures
        lo <= q <= hi,
        q - lo == leading_digits(v@.subrange(lo as int, hi as int)),
        all_digits(v@.subrange(lo as int, q as int)),
        q < hi ==> !is_digit(v@[q as int]),
{
    let mut q = lo;
    while q < hi && is_digit_char(v[q])
        invariant
            lo <= q <= hi <= v@.len(),
            leading_digits(v@.subrange(lo as int, hi as int)) == (q - lo) + leading_digits(
                v@.subrange(q as int, hi as int),
            ),
            all_digits(v@.subrange(lo as int, q as int)),
        decreases hi - q,
    {
        assert(v@.subrange(q as int, hi as int).drop_first() =~= v@.subrange(q + 1, hi as int));
        assert(v@.subrange(lo as int, q + 1) =~= v@.subrange(lo as int, q as int).push(v@[q as int]));
        q += 1;
    }
    assert(leading_digits(v@.subrange(q as int, hi as int)) == 0);
    q
}

fn equals_ignoring_case_range(v: &Vec<char>, lo: usize, hi: usize, lower: &Vec<char>, upper: &Vec<
    char,
>) -> (b: bool)
    requires
        lo <= hi <= v@.len(),
        lower@.len() == upper@.len(),
    ensures
        b == equals_ignoring_case(v@.subrange(lo as int, hi as int), lower@, upper@),
{
    let ghost s = v@.subrange(lo as int, hi as int);
    if hi - lo != lower.len() {
        return false;
    }
    let n = lower.len();
    for i in 0..n
        invariant
            n == lower@.len(),
            n == upper@.len(),
            hi - lo == n,
            hi <= v@.len(),
            s == v@.subrange(lo as int, hi as int),
            forall|j: int| 0 <= j < i ==> #[trigger] s[j] == lower@[j] || s[j] == upper@[j],
    {
        let c = v[lo + i];
        if c != lower[i] && c != upper[i] {
            assert(!(s[i as int] == lower@[i as int] || s[i as int] == upper@[i as int]));
            return false;
        }
    }
    true
}

/// Whether `v[lo..hi]` is an exponent part.
fn is_exponent_range(v: &Vec<char>, lo: usize, hi: usize) -> (b: bool)
    requires
        lo <= hi <= v@.len(),
    ensures
        b == is_exponent(v@.subrange(lo as int, hi as int)),
{
    let ghost e = v@.subrange(lo as int, hi as int);
    if lo == hi || !(v[lo] == 'e' || v[lo] == 'E') {
        return false;
    }
    let mut t = lo + 1;
    assert(e.drop_first() =~= v@.subrange(t as int, hi as int));
    if t < hi && (v[t] == '+' || v[t] == '-') {
        assert(v@.subrange(t as int, hi as int).drop_first() =~= v@.subrange(t + 1, hi as int));
        t += 1;
    }
    assert(strip_sign(e.drop_first()) == v@.subrange(t as int, hi as int));
    if t == hi {
        return false;
    }
    let end = skip_digits(v, t, hi);
    if end == hi {
        assert(v@.subrange(t as int, end as int) == v@.subrange(t as int, hi as int));
        true
    } else {
        assert(v@.subrange(t as int, hi as int)[end - t] == v@[end as int]);
        false
    }
}

/// Whether `v[lo..hi]` is an unsigned decimal number.
fn is_decimal_number_range(v: &Vec<char>, lo: usize, hi: usize) -> (b: bool)
    requires
        lo <= hi <= v@.len(),
    ensures
        b == is_decimal_number(v@.subrange(lo as int, hi as int)),
{
    let ghost r = v@.subrange(lo as int, hi as int);
    let q = skip_digits(v, lo, hi);
    let a = q - lo;
    assert(r.skip(a as int) =~= v@.subrange(q as int, hi as int));
    let mut rest = q;
    let mut b: usize = 0;
    if q < hi && v[q] == '.' {
        assert(v@.subrange(q as int, hi as int).drop_first() =~= v@.subrange(q + 1, hi as int));
        let q2 = skip_digits(v, q + 1, hi);
        b = q2 - (q + 1);
        assert(v@.subrange(q + 1, hi as int).skip(b as int) =~= v@.subrange(q2 as int, hi as int));
        rest = q2;
    }
    proof {
        let after_int = r.skip(a as int);
        let has_point = after_int.len() > 0 && after_int[0] == '.';
        assert(has_point == (q < hi && v@[q as int] == '.'));
        let frac = if has_point {
            after_int.drop_first()
        } else {
            after_int
        };
        let bb = if has_point {
            leading_digits(frac)
        } else {
            0
        };
        assert(bb == b);
        assert(frac.skip(bb as int) =~= v@.subrange(rest as int, hi as int));
    }
    if a + b == 0 {
        return false;
    }
    if rest == hi {
        return true;
    }
    is_exponent_range(v, rest, hi)
}

/// `v[lo..hi].parse::<f64>().is_ok()`.
pub(crate) fn is_float_literal_range(v: &Vec<char>, lo: usize, hi: usize) -> (b: bool)
    requires
        lo <= hi <= v@.len(),
    ensures
        b == is_float_literal(v@.subrange(lo as int, hi as int)),
{
    let ghost s = v@.subrange(lo as int, hi as int);
    let mut p = lo;
    if p < hi && (v[p] == '+' || v[p] == '-') {
        p += 1;
        assert(s.drop_first() =~= v@.subrange(p as int, hi as int));
    }
    assert(strip_sign(s) == v@.subrange(p as int, hi as int));
    if p == hi {
        return false;
    }
    let inf_l = vec!['i', 'n', 'f'];
    let inf_u = vec!['I', 'N', 'F'];
    let infinity_l = vec!['i', 'n', 'f', 'i', 'n', 'i', 't', 'y'];
    let infinity_u = vec!['I', 'N', 'F', 'I', 'N', 'I', 'T', 'Y'];
    let nan_l = vec!['n', 'a', 'n'];
    let nan_u = vec!['N', 'A', 'N'];
    assert(inf_l@ =~= seq!['i', 'n', 'f']);
    assert(inf_u@ =~= seq!['I', 'N', 'F']);
    assert(infinity_l@ =~= seq!['i', 'n', 'f', 'i', 'n', 'i', 't', 'y']);
    assert(infinity_u@ =~= seq!['I', 'N', 'F', 'I', 'N', 'I', 'T', 'Y']);
    assert(nan_l@ =~= seq!['n', 'a', 'n']);
    assert(nan_u@ =~= seq!['N', 'A', 'N']);
    let word = equals_ignoring_case_range(v, p, hi, &inf_l, &inf_u) || equals_ignoring_case_range(
        v,
        p,
        hi,
        &infinity_l,
        &infinity_u,
    ) || equals_ignoring_case_range(v, p, hi, &nan_l, &nan_u);
    word || is_decimal_number_range(v, p, hi)
}

} // verus!

verus! {

/// `s` begins with `prefix`.
pub open spec fn starts_with(s: Seq<char>, prefix: Seq<char>) -> bool {
    s.len() >= prefix.len() && s.take(prefix.len() as int) == prefix
}

/// `needle` occurs in `haystack`.
pub open spec fn contains(haystack: Seq<char>, needle: Seq<char>) -> bool {
    exists|i: int|
        0 <= i && i + needle.len() <= haystack.len() && #[trigger] haystack.subrange(
            i,
            i + needle.len(),
        ) == needle
}

/// Whether `v[lo..hi]` begins with `prefix`.
pub(crate) fn starts_with_range(v: &Vec<char>, lo: usize, hi: usize, prefix: &Vec<char>) -> (b:
    bool)
    requires
        lo <= hi <= v@.len(),
    ensures
        b == starts_with(v@.subrange(lo as int, hi as int), prefix@),
{
    let ghost s = v@.subrange(lo as int, hi as int);
    let n = prefix.len();
    if hi - lo < n {
        return false;
    }
    for i in 0..n
        invariant
            n == prefix@.len(),
            lo + n <= hi <= v@.len(),
            s == v@.subrange(lo as int, hi as int),
            forall|j: int| 0 <= j < i ==> s[j] == prefix@[j],
    {
        if v[lo + i] != prefix[i] {
            assert(s.take(n as int)[i as int] != prefix@[i as int]);
            return false;
        }
    }
    assert(s.take(n as int) =~= prefix@);
    true
}

/// Whether `needle` occurs in `haystack`.
pub(crate) fn contains_chars(haystack: &Vec<char>, needle: &Vec<char>) -> (b: bool)
    ensures
        b == contains(haystack@, needle@),
{
    let h = haystack.len();
    let n = needle.len();
    if n > h {
        return false;
    }
    let mut i: usize = 0;
    while i <= h - n
        invariant
            h == haystack@.len(),
            n == needle@.len(),
            n <= h,
            i <= h - n + 1,
            forall|j: int|
                0 <= j < i ==> #[trigger] haystack@.subrange(j, j + n) != needle@,
        decreases h - n + 1 - i,
    {
        let mut k: usize = 0;
        let mut same = true;
        while k < n
            invariant
                h == haystack@.len(),
                n == needle@.len(),
                i + n <= h,
                k <= n,
                same == (forall|j: int| 0 <= j < k ==> haystack@[i + j] == needle@[j]),
            decreases n - k,
        {
            if haystack[i + k] != needle[k] {
                same = false;
            }
            k += 1;
        }
        if same {
            assert(haystack@.subrange(i as int, i + n) =~= needle@);
            return true;
        }
        assert(haystack@.subrange(i as int, i + n) != needle@) by {
            let j = choose|j: int| 0 <= j < n && haystack@[i + j] != needle@[j];
            assert(haystack@.subrange(i as int, i + n)[j] != needle@[j]);
        }
        i += 1;
    }
    assert(!contains(haystack@, needle@));
    false
}

/// Appends `v[lo..hi]` to `s`.
pub(crate) fn push_range(s: &mut String, v: &Vec<char>, lo: usize, hi: usize)
    requires
        lo <= hi <= v@.len(),
    ensures
        final(s)@ == old(s)@ + v@.subrange(lo as int, hi as int),
{
    let mut i = lo;
    while i < hi
        invariant
            lo <= i <= hi <= v@.len(),
            s@ == old(s)@ + v@.subrange(lo as int, i as int),
        decreases hi - i,
    {
        push_char(s, v[i]);
        assert(old(s)@ + v@.subrange(lo as int, i + 1) =~= (old(s)@ + v@.subrange(
            lo as int,
            i as int,
        )).push(v@[i as int]));
        i += 1;
    }
}

/// `prefix` followed by `v[lo..hi]`, as a new string.
pub(crate) fn message_with(prefix: &str, v: &Vec<char>, lo: usize, hi: usize) -> (s: String)
    requires
        lo <= hi <= v@.len(),
    ensures
        s@ == prefix@ + v@.subrange(lo as int, hi as int),
{
    let mut s = String::from_str(prefix);
    push_range(&mut s, v, lo, hi);
    s
}

} // verus!

verus! {

/// A decimal numeral is a non-empty run of ASCII digits whose value is the
/// number.
pub proof fn lemma_decimal_digits(n: nat)
    ensures
        decimal(n).len() > 0,
        all_digits(decimal(n)),
        digits_value(decimal(n)) == n,
    decreases n,
{
    let d = digit_char(n % 10);
    assert(d as u32 == 48 + n % 10);
    if n >= 10 {
        lemma_decimal_digits(n / 10);
        let s = decimal(n / 10);
        assert(decimal(n).drop_last() =~= s);
        assert(decimal(n).last() == d);
        assert(digits_value(decimal(n)) == digits_value(s) * 10 + (d as u32 - 48));
        assert((n / 10) * 10 + n % 10 == n);
        assert(digits_value(decimal(n)) == n);
        assert(forall|i: int| 0 <= i < decimal(n).len() ==> #[trigger] decimal(n)[i] == if i < s.len() {
            s[i]
        } else {
            d
        });
    } else {
        assert(decimal(n).drop_last() =~= Seq::<char>::empty());
        assert(decimal(n).last() == d);
        assert(digits_value(decimal(n)) == digits_value(Seq::<char>::empty()) * 10 + (d as u32 - 48));
        assert(n % 10 == n);
    }
}

/// A number printed in decimal reads back as the same number.
pub proof fn lemma_parse_decimal(n: usize)
    ensures
        parse_usize(decimal(n as nat)) == Some(n),
{
    lemma_decimal_digits(n as nat);
    let s = decimal(n as nat);
    assert(is_digit(s[0]));
    assert(strip_plus(s) == s);
}

} // verus!

verus! {

/// The pieces of `s` between occurrences of `sep` (`str::split(sep)`): one
/// more piece than there are separators, empty pieces included.
pub open spec fn split_on(s: Seq<char>, sep: char) -> Seq<Seq<char>>
    decreases s.len(),
{
    if s.len() == 0 {
        seq![Seq::<char>::empty()]
    } else {
        let init = split_on(s.drop_last(), sep);
        if s.last() == sep {
            init.push(Seq::<char>::empty())
        } else {
            init.update(init.len() - 1, init.last().push(s.last()))
        }
    }
}

/// The separator alone splits into two empty pieces.
pub proof fn lemma_split_on_sep(sep: char)
    ensures
        split_on(seq![sep], sep) == seq![Seq::<char>::empty(), Seq::<char>::empty()],
{
    let s = seq![sep];
    let e = Seq::<char>::empty();
    assert(s.drop_last() =~= e);
    assert(split_on(e, sep) == seq![e]);
    assert(split_on(s, sep) == split_on(s.drop_last(), sep).push(e));
    assert(seq![e].push(e) =~= seq![e, e]);
}

/// Splitting gives at least one piece.
pub proof fn lemma_split_on_len(s: Seq<char>, sep: char)
    ensures
        split_on(s, sep).len() >= 1,
    decreases s.len(),
{
    if s.len() > 0 {
        lemma_split_on_len(s.drop_last(), sep);
    }
}

/// A text without the separator is one piece.
pub proof fn lemma_split_on_word(w: Seq<char>, sep: char)
    requires
        forall|i: int| 0 <= i < w.len() ==> #[trigger] w[i] != sep,
    ensures
        split_on(w, sep) == seq![w],
    decreases w.len(),
{
    if w.len() > 0 {
        let init = w.drop_last();
        assert forall|i: int| 0 <= i < init.len() implies #[trigger] init[i] != sep by {
            assert(init[i] == w[i]);
        }
        lemma_split_on_word(init, sep);
        assert(init.push(w.last()) =~= w);
        assert(split_on(w, sep) =~= seq![w]);
    } else {
        assert(w =~= Seq::<char>::empty());
    }
}

/// Splitting two texts joined: the last piece of the first and the first
/// piece of the second run together.
pub proof fn lemma_split_on_concat(a: Seq<char>, b: Seq<char>, sep: char)
    ensures
        split_on(a + b, sep) == split_on(a, sep).drop_last() + seq![
            split_on(a, sep).last() + split_on(b, sep)[0],
        ] + split_on(b, sep).skip(1),
    decreases b.len(),
{
    let sa = split_on(a, sep);
    lemma_split_on_len(a, sep);
    if b.len() == 0 {
        assert(a + b =~= a);
        assert(sa.last() + Seq::<char>::empty() =~= sa.last());
        assert(sa.drop_last().push(sa.last()) =~= sa);
        assert(split_on(a + b, sep) =~= sa.drop_last() + seq![sa.last() + split_on(b, sep)[0]]
            + split_on(b, sep).skip(1));
    } else {
        let b1 = b.drop_last();
        let c = b.last();
        lemma_split_on_concat(a, b1, sep);
        lemma_split_on_len(b1, sep);
        assert((a + b).drop_last() =~= a + b1);
        assert((a + b).last() == c);
        let s1 = split_on(b1, sep);
        let x = split_on(a + b1, sep);
        if c == sep {
            assert(split_on(b, sep) == s1.push(Seq::<char>::empty()));
            assert(split_on(b, sep)[0] == s1[0]);
            assert(split_on(b, sep).skip(1) =~= s1.skip(1).push(Seq::<char>::empty()));
            assert(split_on(a + b, sep) =~= sa.drop_last() + seq![sa.last() + split_on(b, sep)[0]]
                + split_on(b, sep).skip(1));
        } else {
            assert(split_on(b, sep) == s1.update(s1.len() - 1, s1.last().push(c)));
            if s1.len() == 1 {
                assert((sa.last() + s1[0]).push(c) =~= sa.last() + s1[0].push(c));
                assert(split_on(b, sep)[0] == s1[0].push(c));
                assert(split_on(b, sep).skip(1) =~= Seq::<Seq<char>>::empty());
                assert(s1.skip(1) =~= Seq::<Seq<char>>::empty());
                assert(x.last() == sa.last() + s1[0]);
                assert(split_on(a + b, sep) =~= sa.drop_last() + seq![
                    sa.last() + split_on(b, sep)[0],
                ] + split_on(b, sep).skip(1));
            } else {
                assert(split_on(b, sep)[0] == s1[0]);
                assert(split_on(b, sep).skip(1) =~= s1.skip(1).update(
                    s1.len() - 2,
                    s1.last().push(c),
                ));
                assert(x.last() == s1.last());
                assert(split_on(a + b, sep) =~= sa.drop_last() + seq![
                    sa.last() + split_on(b, sep)[0],
                ] + split_on(b, sep).skip(1));
            }
        }
    }
}

/// No character of `s` is `c`.
pub open spec fn free_of(s: Seq<char>, c: char) -> bool {
    forall|i: int| 0 <= i < s.len() ==> #[trigger] s[i] != c
}

/// Joining two texts without `c` gives a text without `c`.
pub proof fn lemma_free_concat(a: Seq<char>, b: Seq<char>, c: char)
    requires
        free_of(a, c),
        free_of(b, c),
    ensures
        free_of(a + b, c),
{
    assert forall|i: int| 0 <= i < (a + b).len() implies #[trigger] (a + b)[i] != c by {
        if i < a.len() {
            assert((a + b)[i] == a[i]);
        } else {
            assert((a + b)[i] == b[i - a.len()]);
        }
    }
}

/// A decimal numeral holds no character other than digits.
pub proof fn lemma_decimal_free(n: nat, c: char)
    requires
        !is_digit(c),
    ensures
        free_of(decimal(n), c),
{
    lemma_decimal_digits(n);
    assert forall|i: int| 0 <= i < decimal(n).len() implies #[trigger] decimal(n)[i] != c by {
        assert(is_digit(decimal(n)[i]));
    }
}

/// Splitting at commas is splitting on the comma.
pub proof fn lemma_split_fields_on_comma(s: Seq<char>)
    ensures
        split_fields(s) == split_on(s, ','),
    decreases s.len(),
{
    if s.len() > 0 {
        lemma_split_fields_on_comma(s.drop_last());
    }
}

/// A text that neither begins nor ends with whitespace is its own trim.
pub proof fn lemma_trim_unchanged(s: Seq<char>)
    requires
        s.len() > 0 ==> !is_whitespace(s[0]) && !is_whitespace(s.last()),
    ensures
        trim(s) == s,
{
    assert(trim_start(s) == s);
}

/// A decimal numeral is its own trim.
pub proof fn lemma_trim_decimal(n: nat)
    ensures
        trim(decimal(n)) == decimal(n),
{
    lemma_decimal_digits(n);
    let d = decimal(n);
    assert(is_digit(d[0]));
    assert(is_digit(d[d.len() - 1]));
    lemma_trim_unchanged(d);
}

/// A text contains any piece that it is made of.
pub proof fn lemma_contains_middle(x: Seq<char>, needle: Seq<char>, y: Seq<char>)
    ensures
        contains(x + needle + y, needle),
{
    let h = x + needle + y;
    assert(h.subrange(x.len() as int, (x.len() + needle.len()) as int) =~= needle);
}

} // verus!
