//! Verified helpers over strings and character sequences.
//!
//! All parsing and rendering in this crate works over `Vec<char>` with
//! `Seq<char>` as the mathematical model, so that contracts line up with the
//! views of `String` and `&str`.

use vstd::prelude::*;

verus! {

/// The ASCII whitespace characters that surrounding-trim removes.
pub open spec fn is_space_char(c: char) -> bool {
    c == ' ' || c == '\t' || c == '\n' || c == '\r'
}

/// Decimal digit test.
pub open spec fn is_digit_char(c: char) -> bool {
    '0' <= c && c <= '9'
}

/// Value of one decimal digit.
pub open spec fn digit_val(c: char) -> int {
    c as int - '0' as int
}

/// All characters of `s` are decimal digits.
pub open spec fn all_digits(s: Seq<char>) -> bool {
    forall|i: int| 0 <= i < s.len() ==> is_digit_char(#[trigger] s[i])
}

/// Numeric value of a digit string, most significant digit first.
pub open spec fn digits_value(s: Seq<char>) -> int
    decreases s.len(),
{
    if s.len() == 0 {
        0
    } else {
        digits_value(s.drop_last()) * 10 + digit_val(s.last())
    }
}

/// `s` with leading and trailing ASCII whitespace removed.
pub open spec fn spec_trim(s: Seq<char>) -> Seq<char>
    decreases s.len(),
{
    if s.len() == 0 {
        s
    } else if is_space_char(s[0]) {
        spec_trim(s.subrange(1, s.len() as int))
    } else if is_space_char(s.last()) {
        spec_trim(s.subrange(0, s.len() - 1))
    } else {
        s
    }
}

/// Splitting a character sequence at every occurrence of `sep`.
pub open spec fn spec_split(s: Seq<char>, sep: char) -> Seq<Seq<char>>
    decreases s.len(),
    via spec_split_decreases
{
    if !s.contains(sep) {
        seq![s]
    } else {
        let i = first_index_of(s, sep);
        seq![s.subrange(0, i)] + spec_split(s.subrange(i + 1, s.len() as int), sep)
    }
}

#[via_fn]
proof fn spec_split_decreases(s: Seq<char>, sep: char) {
    if s.contains(sep) {
        lemma_index_of_first(s, sep);
    }
}

/// Index of the first occurrence of `c` in `s` (meaningful only when present).
pub open spec fn first_index_of(s: Seq<char>, c: char) -> int {
    s.index_of_first(c).unwrap_or(s.len() as int)
}

pub proof fn lemma_index_of_first(s: Seq<char>, c: char)
    ensures
        s.contains(c) ==> {
            let i = first_index_of(s, c)
            ;
            0 <= i < s.len() && s[i] == c && (forall|j: int| 0 <= j < i ==> s[j] != c)
        },
        !s.contains(c) ==> first_index_of(s, c) == s.len(),
{
    if s.contains(c) {
        s.index_of_first_ensures(c);
    } else {
        s.index_of_first_ensures(c);
        if s.index_of_first(c) is Some {
            let i = s.index_of_first(c).unwrap();
            assert(s[i] == c);
            assert(s.contains(c));
        }
    }
}

/// Collects the characters of `s` into a vector, so that parsing code can
/// index them in constant time.
pub fn chars_of(s: &str) -> (r: Vec<char>)
    ensures
        r@ == s@,
{
    let len = s.unicode_len();
    let mut r: Vec<char> = Vec::new();
    let mut i: usize = 0;
    while i < len
        invariant
            i <= len,
            len == s@.len(),
            r@ == s@.subrange(0, i as int),
        decreases len - i,
    {
        let c = s.get_char(i);
        r.push(c);
        i = i + 1;
        proof {
            assert(r@ =~= s@.subrange(0, i as int));
        }
    }
    proof {
        assert(r@ =~= s@);
    }
    r
}

/// Appends one character to a string.
///
/// Relies on `String::push`, which vstd leaves unspecified: it appends
/// exactly the given character.
#[verifier::external_body]
pub fn push_char(s: &mut String, c: char)
    ensures
        final(s)@ == old(s)@.push(c),
{
    s.push(c);
}

/// Builds a `String` from a character vector.
pub fn string_from_chars(v: &Vec<char>) -> (r: String)
    ensures
        r@ == v@,
{
    let mut r = String::new();
    let mut i: usize = 0;
    while i < v.len()
        invariant
            i <= v.len(),
            r@ == v@.subrange(0, i as int),
        decreases v.len() - i,
    {
        push_char(&mut r, v[i]);
        i = i + 1;
        proof {
            assert(r@ =~= v@.subrange(0, i as int));
        }
    }
    proof {
        assert(r@ =~= v@);
    }
    r
}

/// Character-wise equality of two strings.
pub fn str_eq(a: &str, b: &str) -> (r: bool)
    ensures
        r == (a@ == b@),
{
    let alen = a.unicode_len();
    let blen = b.unicode_len();
    if alen != blen {
        proof {
            assert(a@ != b@);
        }
        return false;
    }
    let mut i: usize = 0;
    while i < alen
        invariant
            i <= alen,
            alen == a@.len(),
            alen == b@.len(),
            forall|j: int| 0 <= j < i ==> a@[j] == b@[j],
        decreases alen - i,
    {
        if a.get_char(i) != b.get_char(i) {
            return false;
        }
        i = i + 1;
    }
    proof {
        assert(a@ =~= b@);
    }
    true
}

/// Finds the first occurrence of `c` in `v` from position `from` on.
pub fn find_char_from(v: &Vec<char>, from: usize, c: char) -> (r: Option<usize>)
    requires
        from <= v@.len(),
    ensures
        match r {
            Some(i) => from <= i < v@.len() && v@[i as int] == c && (forall|j: int|
                from <= j < i ==> v@[j] != c),
            None => forall|j: int| from <= j < v@.len() ==> v@[j] != c,
        },
{
    let mut i: usize = from;
    while i < v.len()
        invariant
            from <= i <= v@.len(),
            forall|j: int| from <= j < i ==> v@[j] != c,
        decreases v@.len() - i,
    {
        if v[i] == c {
            return Some(i);
        }
        i = i + 1;
    }
    None
}

/// Trims ASCII whitespace from both ends of `v[from..to]` and returns the
/// trimmed copy.
pub fn trim_range(v: &Vec<char>, from: usize, to: usize) -> (r: Vec<char>)
    requires
        from <= to <= v@.len(),
    ensures
        r@ == spec_trim(v@.subrange(from as int, to as int)),
{
    let mut lo = from;
    let mut hi = to;
    while lo < hi && (v[lo] == ' ' || v[lo] == '\t' || v[lo] == '\n' || v[lo] == '\r')
        invariant
            from <= lo <= hi <= to <= v@.len(),
            spec_trim(v@.subrange(from as int, to as int)) == spec_trim(
                v@.subrange(lo as int, hi as int),
            ),
        decreases hi - lo,
    {
        proof {
            let s = v@.subrange(lo as int, hi as int);
            assert(s[0] == v@[lo as int]);
            assert(is_space_char(s[0]));
            assert(s.subrange(1, s.len() as int) =~= v@.subrange(lo + 1, hi as int));
            assert(spec_trim(s) == spec_trim(v@.subrange(lo + 1, hi as int)));
        }
        lo = lo + 1;
    }
    while lo < hi && (v[hi - 1] == ' ' || v[hi - 1] == '\t' || v[hi - 1] == '\n' || v[hi - 1]
        == '\r')
        invariant
            from <= lo <= hi <= to <= v@.len(),
            spec_trim(v@.subrange(from as int, to as int)) == spec_trim(
                v@.subrange(lo as int, hi as int),
            ),
            lo < hi ==> !is_space_char(v@[lo as int]),
        decreases hi - lo,
    {
        proof {
            let s = v@.subrange(lo as int, hi as int);
            assert(s[0] == v@[lo as int]);
            assert(!is_space_char(s[0]));
            assert(s.last() == v@[hi - 1]);
            assert(is_space_char(s.last()));
            assert(s.subrange(0, s.len() - 1) =~= v@.subrange(lo as int, hi - 1));
            assert(spec_trim(s) == spec_trim(v@.subrange(lo as int, hi - 1)));
        }
        hi = hi - 1;
    }
    proof {
        let s = v@.subrange(lo as int, hi as int);
        if s.len() > 0 {
            assert(s[0] == v@[lo as int]);
            assert(s.last() == v@[hi - 1]);
        }
        assert(spec_trim(s) == s);
    }
    let mut r: Vec<char> = Vec::new();
    let mut i = lo;
    while i < hi
        invariant
            lo <= i <= hi <= v@.len(),
            r@ == v@.subrange(lo as int, i as int),
        decreases hi - i,
    {
        r.push(v[i]);
        i = i + 1;
        proof {
            assert(r@ =~= v@.subrange(lo as int, i as int));
        }
    }
    proof {
        assert(r@ =~= v@.subrange(lo as int, hi as int));
    }
    r
}

/// Splits `v` at every occurrence of `sep`, keeping empty pieces.
pub fn split_chars(v: &Vec<char>, sep: char) -> (r: Vec<Vec<char>>)
    ensures
        r.deep_view() == spec_split(v@, sep),
        r@.len() >= 1,
{
    let mut pieces: Vec<Vec<char>> = Vec::new();
    let mut piece: Vec<char> = Vec::new();
    let mut i: usize = 0;
    let ghost mut piece_start: int = 0;
    proof {
        assert(pieces.deep_view() =~= Seq::<Seq<char>>::empty());
        assert(v@.subrange(0, v@.len() as int) =~= v@);
        assert(piece@ =~= v@.subrange(0, 0));
        assert(pieces.deep_view() + spec_split(v@, sep) =~= spec_split(v@, sep));
    }
    while i < v.len()
        invariant
            0 <= piece_start <= i <= v@.len(),
            piece@ == v@.subrange(piece_start, i as int),
            !v@.subrange(piece_start, i as int).contains(sep),
            spec_split(v@, sep) == pieces.deep_view() + spec_split(
                v@.subrange(piece_start, v@.len() as int),
                sep,
            ),
        decreases v@.len() - i,
    {
        let c = v[i];
        if c == sep {
            proof {
                let rest = v@.subrange(piece_start, v@.len() as int);
                let k = i - piece_start;
                assert(rest[k] == sep);
                assert(rest.contains(sep));
                lemma_index_of_first(rest, sep);
                assert forall|j: int| 0 <= j < k implies rest[j] != sep by {
                    assert(rest[j] == v@.subrange(piece_start, i as int)[j]);
                }
                assert(first_index_of(rest, sep) == k);
                assert(rest.subrange(0, k) =~= v@.subrange(piece_start, i as int));
                assert(rest.subrange(k + 1, rest.len() as int) =~= v@.subrange(
                    i + 1,
                    v@.len() as int,
                ));
                assert((pieces.deep_view() + seq![piece@]) + spec_split(
                    v@.subrange(i + 1, v@.len() as int),
                    sep,
                ) =~= pieces.deep_view() + spec_split(rest, sep));
            }
            let ghost old_pieces_view = pieces.deep_view();
            let ghost piece_view = piece@;
            pieces.push(piece);
            piece = Vec::new();
            proof {
                piece_start = i + 1;
                assert(pieces.deep_view() =~~= old_pieces_view + seq![piece_view]);
                assert(piece@ =~= v@.subrange(piece_start, i + 1));
                assert(!v@.subrange(piece_start, i + 1).contains(sep));
            }
        } else {
            piece.push(c);
            proof {
                assert(piece@ =~= v@.subrange(piece_start, i + 1));
                assert(!v@.subrange(piece_start, i + 1).contains(sep)) by {
                    let s = v@.subrange(piece_start, i + 1);
                    assert forall|j: int| 0 <= j < s.len() implies s[j] != sep by {
                        if j < s.len() - 1 {
                            assert(s[j] == v@.subrange(piece_start, i as int)[j]);
                            assert(!v@.subrange(piece_start, i as int).contains(sep));
                        } else {
                            assert(s[j] == c);
                        }
                    }
                    if s.contains(sep) {
                        let w = choose|w: int| 0 <= w < s.len() && s[w] == sep;
                        assert(false);
                    }
                }
            }
        }
        i = i + 1;
    }
    proof {
        let rest = v@.subrange(piece_start, v@.len() as int);
        assert(rest =~= piece@);
        assert(!rest.contains(sep));
        assert(spec_split(rest, sep) == seq![rest]);
        assert(pieces.deep_view() + seq![piece@] =~= spec_split(v@, sep));
    }
    let ghost old_pieces_view = pieces.deep_view();
    let ghost piece_view = piece@;
    pieces.push(piece);
    proof {
        assert(pieces.deep_view() =~~= old_pieces_view + seq![piece_view]);
        assert(pieces.deep_view() =~= spec_split(v@, sep));
    }
    pieces
}

/// Parses an unsigned decimal number bounded by `max`, as `str::parse` for an
/// unsigned integer type does: an optional leading `+`, then one or more
/// digits, no surrounding whitespace.
///
/// Returns `Some` exactly on such inputs whose value is at most `max`.
pub open spec fn spec_uint_digits(s: Seq<char>) -> Seq<char> {
    if s.len() > 0 && s[0] == '+' {
        s.subrange(1, s.len() as int)
    } else {
        s
    }
}

pub open spec fn spec_parse_uint(s: Seq<char>, max: int) -> Option<int> {
    let digits = spec_uint_digits(s);
    if digits.len() > 0 && all_digits(digits) && digits_value(digits) <= max {
        Some(digits_value(digits))
    } else {
        None
    }
}

proof fn lemma_digits_value_bounds(s: Seq<char>)
    requires
        all_digits(s),
    ensures
        digits_value(s) >= 0,
    decreases s.len(),
{
    if s.len() > 0 {
        assert(all_digits(s.drop_last())) by {
            assert(forall|i: int|
                0 <= i < s.len() - 1 ==> is_digit_char(#[trigger] s.drop_last()[i]));
        }
        lemma_digits_value_bounds(s.drop_last());
    }
}

/// Parses `v[from..to]` as an unsigned decimal number at most `max`.
pub fn parse_uint_range(v: &Vec<char>, from: usize, to: usize, max: u64) -> (r: Option<u64>)
    requires
        from <= to <= v@.len(),
    ensures
        match r {
            Some(n) => spec_parse_uint(v@.subrange(from as int, to as int), max as int) == Some(
                n as int,
            ) && n <= max,
            None => spec_parse_uint(v@.subrange(from as int, to as int), max as int) is None,
        },
{
    let ghost s = v@.subrange(from as int, to as int);
    let mut i = from;
    if i < to && v[i] == '+' {
        i = i + 1;
        proof {
            assert(s[0] == '+');
        }
    }
    let ghost digits = spec_uint_digits(s);
    proof {
        assert(digits =~= v@.subrange(i as int, to as int));
    }
    if i == to {
        proof {
            assert(digits.len() == 0);
        }
        return None;
    }
    let mut acc: u64 = 0;
    let mut j = i;
    while j < to
        invariant
            i <= j <= to <= v@.len(),
            from <= i,
            i < to,
            s == v@.subrange(from as int, to as int),
            digits == spec_uint_digits(s),
            digits == v@.subrange(i as int, to as int),
            all_digits(v@.subrange(i as int, j as int)),
            acc as int == digits_value(v@.subrange(i as int, j as int)),
            acc <= max,
        decreases to - j,
    {
        let c = v[j];
        if !('0' <= c && c <= '9') {
            proof {
                assert(digits[j - i] == c);
                assert(!is_digit_char(c));
                assert(!all_digits(digits));
                assert(spec_parse_uint(s, max as int) is None);
            }
            return None;
        }
        let d = (c as u32 - '0' as u32) as u64;
        proof {
            assert(v@.subrange(i as int, j + 1).drop_last() =~= v@.subrange(i as int, j as int));
            assert(v@.subrange(i as int, j + 1).last() == c);
        }
        if acc > max / 10 || (acc == max / 10 && d > max % 10) {
            proof {
                let g = v@.subrange(i as int, j + 1);
                assert(digits_value(g) == acc as int * 10 + d);
                assert(digits_value(g) > max) by {
                    assert(acc as int * 10 + d > (max / 10) as int * 10 + (max % 10) as int);
                }
                if all_digits(digits) {
                    lemma_digits_value_mono(digits, j + 1 - i);
                    assert(g =~= digits.subrange(0, j + 1 - i));
                    assert(digits_value(digits) > max);
                }
            }
            return None;
        }
        acc = acc * 10 + d;
        j = j + 1;
        proof {
            assert(all_digits(v@.subrange(i as int, j as int))) by {
                let g = v@.subrange(i as int, j as int);
                assert(forall|k: int|
                    0 <= k < g.len() - 1 ==> g[k] == v@.subrange(i as int, j - 1)[k]);
                assert(g[g.len() - 1] == c);
            }
        }
    }
    proof {
        assert(v@.subrange(i as int, j as int) =~= digits);
        assert(digits.len() > 0);
    }
    Some(acc)
}

/// If some prefix of a digit string already exceeds the bound, the whole
/// string does too.
proof fn lemma_digits_value_mono(s: Seq<char>, k: int)
    requires
        all_digits(s),
        0 < k <= s.len(),
    ensures
        digits_value(s) >= digits_value(s.subrange(0, k)),
    decreases s.len() - k,
{
    lemma_digits_value_bounds(s);
    if k < s.len() {
        lemma_digits_value_mono(s, k + 1);
        let p = s.subrange(0, k + 1);
        assert(p.drop_last() =~= s.subrange(0, k));
        assert(all_digits(p));
        assert(is_digit_char(p.last()));
        assert(all_digits(s.subrange(0, k))) by {
            assert(forall|q: int|
                0 <= q < k ==> is_digit_char(#[trigger] s.subrange(0, k)[q]));
        }
        lemma_digits_value_bounds(s.subrange(0, k));
        assert(digits_value(p) == digits_value(s.subrange(0, k)) * 10 + digit_val(p.last()));
        assert(digits_value(p) >= digits_value(s.subrange(0, k)));
    } else {
        assert(s.subrange(0, k) =~= s);
    }
}

/// Decimal rendering of a nonnegative number, most significant digit first.
pub open spec fn spec_digits_of(n: int) -> Seq<char>
    decreases n,
{
    if n <= 0 {
        seq![]
    } else {
        spec_digits_of(n / 10).push(('0' as u8 + (n % 10) as u8) as char)
    }
}

/// Decimal rendering of `n`, with `0` rendered as `"0"`.
pub open spec fn spec_render_uint(n: int) -> Seq<char> {
    if n == 0 {
        seq!['0']
    } else {
        spec_digits_of(n)
    }
}

/// Renders `n` in decimal.
pub fn render_u64(n: u64) -> (r: Vec<char>)
    ensures
        r@ == spec_render_uint(n as int),
{
    if n == 0 {
        let mut r: Vec<char> = Vec::new();
        r.push('0');
        proof {
            assert(r@ =~= seq!['0']);
        }
        return r;
    }
    let mut digits_rev: Vec<char> = Vec::new();
    let mut m = n;
    while m > 0
        invariant
            m <= n,
            spec_digits_of(n as int) == spec_digits_of(m as int) + digits_rev@.reverse(),
        decreases m,
    {
        let d = (m % 10) as u8;
        let c = (('0' as u8) + d) as char;
        proof {
            let prev = digits_rev@;
            assert(spec_digits_of(m as int) == spec_digits_of(m as int / 10).push(c));
            assert(spec_digits_of(m as int / 10) + prev.push(c).reverse() =~= spec_digits_of(
                m as int / 10,
            ).push(c) + prev.reverse());
        }
        digits_rev.push(c);
        m = m / 10;
    }
    let mut r: Vec<char> = Vec::new();
    let mut i = digits_rev.len();
    while i > 0
        invariant
            i <= digits_rev.len(),
            r@ == digits_rev@.reverse().subrange(0, digits_rev@.len() - i),
        decreases i,
    {
        i = i - 1;
        r.push(digits_rev[i]);
        proof {
            assert(r@ =~= digits_rev@.reverse().subrange(0, digits_rev@.len() - i));
        }
    }
    proof {
        assert(r@ =~= digits_rev@.reverse());
        assert(spec_digits_of(n as int) =~= spec_digits_of(0) + digits_rev@.reverse());
        assert(r@ =~= spec_digits_of(n as int));
    }
    r
}

/// Appends the characters of `v` to the string `s`.
pub fn append_chars(s: &mut String, v: &Vec<char>)
    ensures
        final(s)@ == old(s)@ + v@,
{
    let mut i: usize = 0;
    while i < v.len()
        invariant
            i <= v.len(),
            s@ == old(s)@ + v@.subrange(0, i as int),
        decreases v.len() - i,
    {
        push_char(s, v[i]);
        i = i + 1;
        proof {
            assert(old(s)@ + v@.subrange(0, i - 1) + seq![v@[i - 1]] =~= old(s)@ + v@.subrange(
                0,
                i as int,
            ));
        }
    }
    proof {
        assert(old(s)@ + v@.subrange(0, v@.len() as int) =~= old(s)@ + v@);
    }
}

} // verus!
