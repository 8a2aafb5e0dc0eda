//! Small verified text utilities: decimal parsing and rendering, trimming,
//! and padded string building. These are the character-level facts that the
//! table parsers, the JSON codec and the pretty-printers all rest on.

use vstd::prelude::*;

verus! {

/// Is `c` a decimal digit?
pub open spec fn is_digit_char(c: char) -> bool {
    48 <= c as int && c as int <= 57
}

/// The numeric value of a digit character.
pub open spec fn digit_val(c: char) -> int {
    c as int - 48
}

/// The digit character for a value in 0..=9.
pub open spec fn digit_char(d: int) -> char {
    ((48 + d) as u8) as char
}

/// Does `s` consist of decimal digits only?
pub open spec fn all_digits(s: Seq<char>) -> bool {
    forall|i: int| 0 <= i < s.len() ==> is_digit_char(s[i])
}

/// The value of a most-significant-first digit string.
pub open spec fn digits_val(s: Seq<char>) -> int
    decreases s.len(),
{
    if s.len() == 0 {
        0
    } else {
        digits_val(s.drop_last()) * 10 + digit_val(s.last())
    }
}

/// What [`parse_usize`] returns: the value of a non-empty all-digit string
/// when it fits a `usize`, and nothing otherwise.
pub open spec fn spec_parse_usize(s: Seq<char>) -> Option<usize> {
    if s.len() > 0 && all_digits(s) && digits_val(s) <= usize::MAX {
        Some(digits_val(s) as usize)
    } else {
        None
    }
}

proof fn lemma_digits_val_nonneg(s: Seq<char>)
    requires
        all_digits(s),
    ensures
        digits_val(s) >= 0,
    decreases s.len(),
{
    if s.len() > 0 {
        assert(all_digits(s.drop_last())) by {
            assert(forall|i: int| 0 <= i < s.len() - 1 ==> s.drop_last()[i] == s[i]);
        }
        lemma_digits_val_nonneg(s.drop_last());
    }
}

proof fn lemma_digits_val_prefix_le(s: Seq<char>, j: int)
    requires
        all_digits(s),
        0 <= j <= s.len(),
    ensures
        digits_val(s.take(j)) <= digits_val(s),
    decreases s.len() - j,
{
    if j < s.len() {
        let t = s.take(j + 1);
        assert(t.drop_last() =~= s.take(j));
        assert(all_digits(t)) by {
            assert(forall|i: int| 0 <= i < t.len() ==> t[i] == s[i]);
        }
        assert(all_digits(s.take(j))) by {
            assert(forall|i: int| 0 <= i < j ==> s.take(j)[i] == s[i]);
        }
        lemma_digits_val_nonneg(s.take(j));
        assert(digits_val(t) == digits_val(s.take(j)) * 10 + digit_val(t.last()));
        assert(digits_val(s.take(j)) <= digits_val(s.take(j)) * 10 + digit_val(t.last()))
            by (nonlinear_arith)
            requires digits_val(s.take(j)) >= 0 && digit_val(t.last()) >= 0;
        lemma_digits_val_prefix_le(s, j + 1);
        assert(s.take(s.len() as int) =~= s);
    } else {
        assert(s.take(j) =~= s);
    }
}

/// Parses a string of decimal digits as a `usize`; rejects anything that is
/// empty, holds a non-digit, or overflows.
pub fn parse_usize(s: &str) -> (r: Option<usize>)
    ensures
        r == spec_parse_usize(s@),
{
    let n: usize = s.unicode_len();
    if n == 0 {
        return None;
    }
    let mut acc: usize = 0;
    let mut i: usize = 0;
    while i < n
        invariant
            0 < n == s@.len(),
            0 <= i <= n,
            all_digits(s@.take(i as int)),
            acc == digits_val(s@.take(i as int)),
        decreases n - i,
    {
        let c = s.get_char(i);
        let v = c as u32;
        if v < 48 || v > 57 {
            assert(!is_digit_char(s@[i as int]));
            return None;
        }
        let d = (v - 48) as usize;
        proof {
            assert(s@.take(i + 1).drop_last() =~= s@.take(i as int));
            assert(all_digits(s@.take(i + 1))) by {
                assert(forall|k: int| 0 <= k < i ==> s@.take(i + 1)[k] == s@.take(i as int)[k]);
            }
        }
        if acc > (usize::MAX - d) / 10 {
            proof {
                assert(acc * 10 + d > usize::MAX) by (nonlinear_arith)
                    requires acc > (usize::MAX - d) / 10 && 0 <= d <= 9;
                assert(digits_val(s@.take(i + 1)) == acc * 10 + d);
                if all_digits(s@) {
                    lemma_digits_val_prefix_le(s@, i + 1);
                }
            }
            return None;
        }
        proof {
            assert(acc * 10 + d <= usize::MAX) by (nonlinear_arith)
                requires acc <= (usize::MAX - d) / 10 && 0 <= d <= 9;
        }
        acc = acc * 10 + d;
        i = i + 1;
    }
    proof {
        assert(s@.take(n as int) =~= s@);
    }
    Some(acc)
}

/// What [`render_usize`] appends: the shortest decimal form of `n`.
pub open spec fn spec_render_usize(n: int) -> Seq<char>
    decreases n,
{
    if n < 10 {
        seq![digit_char(n)]
    } else {
        spec_render_usize(n / 10).push(digit_char(n % 10))
    }
}

/// Relies on `String::push`: appends the given character to the end.
#[verifier::external_body]
pub fn push_char(s: &mut String, c: char)
    ensures
        final(s)@ == old(s)@.push(c),
{
    s.push(c);
}

fn render_usize_rec(n: usize, out: &mut String)
    ensures
        final(out)@ == old(out)@ + spec_render_usize(n as int),
    decreases n,
{
    if n >= 10 {
        render_usize_rec(n / 10, out);
    }
    let d = (n % 10) as u8;
    push_char(out, (48 + d) as char);
    proof {
        if n < 10 {
            assert(old(out)@ + spec_render_usize(n as int) =~= old(out)@.push(digit_char(n as int)));
        } else {
            assert(old(out)@ + spec_render_usize(n as int)
                =~= (old(out)@ + spec_render_usize(n as int / 10)).push(digit_char(n as int % 10)));
        }
    }
}

/// Appends the decimal rendering of `n` to `out`.
pub fn render_usize(n: usize, out: &mut String)
    ensures
        final(out)@ == old(out)@ + spec_render_usize(n as int),
{
    render_usize_rec(n, out);
}

/// The decimal rendering is a non-empty digit string carrying its value.
pub proof fn lemma_render_digits(n: int)
    requires
        0 <= n,
    ensures
        spec_render_usize(n).len() > 0,
        all_digits(spec_render_usize(n)),
        digits_val(spec_render_usize(n)) == n,
    decreases n,
{
    if n < 10 {
        let s = spec_render_usize(n);
        assert(s =~= seq![digit_char(n)]);
        assert(s.drop_last() =~= Seq::<char>::empty());
        assert(digits_val(Seq::<char>::empty()) == 0);
        assert(digit_char(n) as int == 48 + n);
        assert(digit_val(digit_char(n)) == n);
        assert(digits_val(s) == n);
        assert(all_digits(s));
    } else {
        lemma_render_digits(n / 10);
        let s = spec_render_usize(n);
        let p = spec_render_usize(n / 10);
        assert(s == p.push(digit_char(n % 10)));
        assert(s.drop_last() =~= p);
        assert(s.last() == digit_char(n % 10));
        assert(digit_val(digit_char(n % 10)) == n % 10);
        assert(all_digits(s)) by {
            assert(forall|i: int| 0 <= i < p.len() ==> s[i] == p[i]);
        }
        assert(digits_val(s) == digits_val(p) * 10 + n % 10);
        assert((n / 10) * 10 + n % 10 == n) by (nonlinear_arith);
    }
}

/// The decimal rendering parses back to the number it came from.
pub proof fn lemma_render_parse_roundtrip(n: int)
    requires
        0 <= n <= usize::MAX,
    ensures
        spec_render_usize(n).len() > 0,
        all_digits(spec_render_usize(n)),
        digits_val(spec_render_usize(n)) == n,
        spec_parse_usize(spec_render_usize(n)) == Some(n as usize),
{
    lemma_render_digits(n);
}

/// Is `c` one of the blank characters that trimming removes?
pub open spec fn is_ws(c: char) -> bool {
    c == ' ' || c == '\t' || c == '\n' || c == '\r'
}

/// `s` without leading blanks.
pub open spec fn spec_trim_start(s: Seq<char>) -> Seq<char>
    decreases s.len(),
{
    if s.len() > 0 && is_ws(s[0]) {
        spec_trim_start(s.drop_first())
    } else {
        s
    }
}

/// `s` without trailing blanks.
pub open spec fn spec_trim_end(s: Seq<char>) -> Seq<char>
    decreases s.len(),
{
    if s.len() > 0 && is_ws(s.last()) {
        spec_trim_end(s.drop_last())
    } else {
        s
    }
}

/// `s` without leading and trailing blanks.
pub open spec fn spec_trim(s: Seq<char>) -> Seq<char> {
    spec_trim_end(spec_trim_start(s))
}

proof fn lemma_trim_start_skip(s: Seq<char>, i: int)
    requires
        0 <= i <= s.len(),
        forall|k: int| 0 <= k < i ==> is_ws(s[k]),
        i < s.len() ==> !is_ws(s[i]),
    ensures
        spec_trim_start(s) =~= s.skip(i),
    decreases i,
{
    if i > 0 {
        assert(is_ws(s[0]));
        let t = s.drop_first();
        assert(forall|k: int| 0 <= k < i - 1 ==> t[k] == s[k + 1]);
        lemma_trim_start_skip(t, i - 1);
        assert(t.skip(i - 1) =~= s.skip(i));
    } else {
        if s.len() > 0 {
            assert(!is_ws(s[0]));
        }
        assert(s.skip(0) =~= s);
    }
}

proof fn lemma_trim_end_take(s: Seq<char>, j: int)
    requires
        0 <= j <= s.len(),
        forall|k: int| j <= k < s.len() ==> is_ws(s[k]),
        j > 0 ==> !is_ws(s[j - 1]),
    ensures
        spec_trim_end(s) =~= s.take(j),
    decreases s.len() - j,
{
    if j < s.len() {
        assert(is_ws(s.last()));
        let t = s.drop_last();
        assert(forall|k: int| j <= k < t.len() ==> t[k] == s[k]);
        lemma_trim_end_take(t, j);
        assert(t.take(j) =~= s.take(j));
    } else {
        if s.len() > 0 {
            assert(!is_ws(s.last()));
        }
        assert(s.take(s.len() as int) =~= s);
    }
}

/// Is `c` one of the blank characters that trimming removes?
fn is_blank(c: char) -> (r: bool)
    ensures
        r == is_ws(c),
{
    c == ' ' || c == '\t' || c == '\n' || c == '\r'
}

/// Copies `s` with leading and trailing blanks removed.
pub fn trim_str(s: &str) -> (r: String)
    ensures
        r@ == spec_trim(s@),
{
    let n: usize = s.unicode_len();
    let mut i: usize = 0;
    while i < n && is_blank(s.get_char(i))
        invariant
            0 <= i <= n == s@.len(),
            forall|k: int| 0 <= k < i ==> is_ws(s@[k]),
        decreases n - i,
    {
        i = i + 1;
    }
    let mut j: usize = n;
    while j > i && is_blank(s.get_char(j - 1))
        invariant
            i <= j <= n == s@.len(),
            forall|k: int| 0 <= k < i ==> is_ws(s@[k]),
            forall|k: int| j <= k < n ==> is_ws(s@[k]),
        decreases j,
    {
        j = j - 1;
    }
    let r = s.substring_char(i, j).to_owned();
    proof {
        lemma_trim_start_skip(s@, i as int);
        let t = s@.skip(i as int);
        assert(forall|k: int| j - i <= k < t.len() ==> #[trigger] t[k] == s@[k + i]);
        if j > i {
            assert(t[j - i - 1] == s@[j - 1]);
        }
        lemma_trim_end_take(t, j - i);
        assert(t.take(j - i) =~= s@.subrange(i as int, j as int));
    }
    r
}

/// `s` with every non-overlapping occurrence of `pat`, scanned left to
/// right, replaced by `to`; `s` unchanged when `pat` is empty.
pub open spec fn spec_replace_all(s: Seq<char>, pat: Seq<char>, to: Seq<char>) -> Seq<char>
    decreases s.len(),
{
    if pat.len() == 0 || s.len() < pat.len() {
        s
    } else if s.subrange(0, pat.len() as int) == pat {
        to + spec_replace_all(s.skip(pat.len() as int), pat, to)
    } else {
        seq![s[0]] + spec_replace_all(s.skip(1), pat, to)
    }
}

/// Does `pat` occur in `s` at position `i`?
fn match_at(s: &str, i: usize, pat: &str) -> (r: bool)
    requires
        i + pat@.len() <= s@.len() <= usize::MAX,
    ensures
        r == (s@.subrange(i as int, i + pat@.len()) =~= pat@),
{
    let m: usize = pat.unicode_len();
    let mut k: usize = 0;
    while k < m
        invariant
            0 <= k <= m == pat@.len(),
            i + m <= s@.len() <= usize::MAX,
            forall|t: int| 0 <= t < k ==> s@[i + t] == pat@[t],
        decreases m - k,
    {
        if s.get_char(i + k) != pat.get_char(k) {
            assert(s@.subrange(i as int, i + pat@.len())[k as int] != pat@[k as int]);
            return false;
        }
        k = k + 1;
    }
    proof {
        assert forall|t: int| 0 <= t < m implies s@.subrange(i as int, i + pat@.len())[t]
            == pat@[t] by {
            assert(s@[i + t] == pat@[t]);
        }
    }
    true
}

/// Copies `s` with every non-overlapping occurrence of `pat` replaced by
/// `to`, scanning left to right.
pub fn replace_all(s: &str, pat: &str, to: &str) -> (r: String)
    ensures
        r@ == spec_replace_all(s@, pat@, to@),
{
    let n: usize = s.unicode_len();
    let m: usize = pat.unicode_len();
    if m == 0 {
        return s.to_owned();
    }
    let mut out = String::new();
    proof {
        assert(s@.skip(0) =~= s@);
        assert(out@ + spec_replace_all(s@, pat@, to@) =~= spec_replace_all(s@, pat@, to@));
    }
    let mut i: usize = 0;
    while i < n
        invariant
            0 <= i <= n == s@.len(),
            0 < m == pat@.len(),
            out@ + spec_replace_all(s@.skip(i as int), pat@, to@) == spec_replace_all(
                s@,
                pat@,
                to@,
            ),
        decreases n - i,
    {
        let ghost tail = s@.skip(i as int);
        if m <= n - i && match_at(s, i, pat) {
            proof {
                assert(tail.subrange(0, m as int) =~= s@.subrange(i as int, i + m));
                assert(tail.skip(m as int) =~= s@.skip(i + m));
            }
            out.append(to);
            i = i + m;
        } else {
            proof {
                if tail.len() >= m {
                    assert(tail.subrange(0, m as int) =~= s@.subrange(i as int, i + m));
                }
                assert(tail.skip(1) =~= s@.skip(i + 1));
                assert(seq![tail[0]] =~= Seq::<char>::empty().push(s@[i as int]));
            }
            let c = s.get_char(i);
            push_char(&mut out, c);
            i = i + 1;
        }
    }
    proof {
        assert(s@.skip(n as int) =~= Seq::<char>::empty());
        assert(out@ =~= out@ + spec_replace_all(s@.skip(n as int), pat@, to@));
    }
    out
}

/// Are two pieces of text equal character for character?
pub fn str_eq(a: &str, b: &str) -> (r: bool)
    ensures
        r == (a@ == b@),
{
    let na: usize = a.unicode_len();
    let nb: usize = b.unicode_len();
    if na != nb {
        return false;
    }
    let mut i: usize = 0;
    while i < na
        invariant
            0 <= i <= na == a@.len(),
            na == b@.len(),
            forall|k: int| 0 <= k < i ==> a@[k] == b@[k],
        decreases na - i,
    {
        if a.get_char(i) != b.get_char(i) {
            return false;
        }
        i = i + 1;
    }
    proof {
        assert(a@ =~= b@);
    }
    true
}

/// A sequence of `n` copies of `c`.
pub open spec fn spec_repeat(c: char, n: int) -> Seq<char> {
    Seq::new(n as nat, |i: int| c)
}

/// Appends `n` copies of `c` to `out`.
pub fn append_repeat(c: char, n: usize, out: &mut String)
    ensures
        final(out)@ == old(out)@ + spec_repeat(c, n as int),
{
    let mut i: usize = 0;
    while i < n
        invariant
            0 <= i <= n,
            out@ == old(out)@ + spec_repeat(c, i as int),
        decreases n - i,
    {
        push_char(out, c);
        proof {
            assert(old(out)@ + spec_repeat(c, i + 1) =~= (old(out)@ + spec_repeat(c, i as int)).push(c));
        }
        i = i + 1;
    }
}

/// `s` left-justified in a field of `width` blanks; never truncated.
pub open spec fn spec_pad_right(s: Seq<char>, width: int) -> Seq<char> {
    if s.len() < width {
        s + spec_repeat(' ', width - s.len())
    } else {
        s
    }
}

/// Appends `s` followed by the blanks that bring it to `width` characters.
pub fn append_pad_right(s: &str, width: usize, out: &mut String)
    ensures
        final(out)@ == old(out)@ + spec_pad_right(s@, width as int),
{
    let n: usize = s.unicode_len();
    out.append(s);
    if n < width {
        append_repeat(' ', width - n, out);
    }
}

/// `s` centred in a field of `width` blanks, the odd blank going to the
/// right; never truncated.
pub open spec fn spec_center(s: Seq<char>, width: int) -> Seq<char> {
    if s.len() < width {
        let left = (width - s.len()) / 2;
        spec_repeat(' ', left) + s + spec_repeat(' ', width - s.len() - left)
    } else {
        s
    }
}

/// Appends `s` centred in a field of `width` characters.
pub fn append_center(s: &str, width: usize, out: &mut String)
    ensures
        final(out)@ == old(out)@ + spec_center(s@, width as int),
{
    let n: usize = s.unicode_len();
    if n < width {
        let left = (width - n) / 2;
        append_repeat(' ', left, out);
        out.append(s);
        append_repeat(' ', width - n - left, out);
        proof {
            assert(out@ =~= old(out)@ + spec_center(s@, width as int));
        }
    } else {
        out.append(s);
    }
}


/// Appends the decimal rendering of `n` to `out`.
pub fn render_u64(n: u64, out: &mut String)
    ensures
        final(out)@ == old(out)@ + spec_render_usize(n as int),
    decreases n,
{
    if n >= 10 {
        render_u64(n / 10, out);
    }
    let d = (n % 10) as u8;
    push_char(out, (48 + d) as char);
    proof {
        if n < 10 {
            assert(old(out)@ + spec_render_usize(n as int) =~= old(out)@.push(digit_char(n as int)));
        } else {
            assert(old(out)@ + spec_render_usize(n as int)
                =~= (old(out)@ + spec_render_usize(n as int / 10)).push(digit_char(n as int % 10)));
        }
    }
}

/// What [`render_i64`] appends: a minus sign for negative values, then
/// the decimal magnitude.
pub open spec fn spec_render_i64(n: int) -> Seq<char> {
    if n < 0 {
        seq!['-'] + spec_render_usize(-n)
    } else {
        spec_render_usize(n)
    }
}

/// Appends the decimal rendering of a signed value to `out`.
pub fn render_i64(n: i64, out: &mut String)
    ensures
        final(out)@ == old(out)@ + spec_render_i64(n as int),
{
    if n < 0 {
        let ghost pre = out@;
        push_char(out, '-');
        let m: u64 = if n == i64::MIN {
            9223372036854775808u64
        } else {
            (-n) as u64
        };
        render_u64(m, out);
        proof {
            assert(out@ =~= pre + spec_render_i64(n as int));
        }
    } else {
        render_u64(n as u64, out);
    }
}

/// What parsing an unsigned digit string as a `u64` yields.
pub open spec fn spec_parse_u64(s: Seq<char>) -> Option<u64> {
    if s.len() > 0 && all_digits(s) && digits_val(s) <= u64::MAX {
        Some(digits_val(s) as u64)
    } else {
        None
    }
}

/// Parses a string of decimal digits as a `u64`.
pub fn parse_u64(s: &str) -> (r: Option<u64>)
    ensures
        r == spec_parse_u64(s@),
{
    let n: usize = s.unicode_len();
    if n == 0 {
        return None;
    }
    let mut acc: u64 = 0;
    let mut i: usize = 0;
    while i < n
        invariant
            0 < n == s@.len(),
            0 <= i <= n,
            all_digits(s@.take(i as int)),
            acc == digits_val(s@.take(i as int)),
        decreases n - i,
    {
        let c = s.get_char(i);
        let v = c as u32;
        if v < 48 || v > 57 {
            assert(!is_digit_char(s@[i as int]));
            return None;
        }
        let d = (v - 48) as u64;
        proof {
            assert(s@.take(i + 1).drop_last() =~= s@.take(i as int));
            assert(all_digits(s@.take(i + 1))) by {
                assert(forall|k: int| 0 <= k < i ==> s@.take(i + 1)[k] == s@.take(i as int)[k]);
            }
        }
        if acc > (u64::MAX - d) / 10 {
            proof {
                assert(acc * 10 + d > u64::MAX) by (nonlinear_arith)
                    requires acc > (u64::MAX - d) / 10 && 0 <= d <= 9;
                assert(digits_val(s@.take(i + 1)) == acc * 10 + d);
                if all_digits(s@) {
                    lemma_digits_val_prefix_le(s@, i + 1);
                }
            }
            return None;
        }
        proof {
            assert(acc * 10 + d <= u64::MAX) by (nonlinear_arith)
                requires acc <= (u64::MAX - d) / 10 && 0 <= d <= 9;
        }
        acc = acc * 10 + d;
        i = i + 1;
    }
    proof {
        assert(s@.take(n as int) =~= s@);
    }
    Some(acc)
}

/// What parsing a decimal text as an `i64` yields: an optional minus sign
/// followed by digits, within the type's bounds.
pub open spec fn spec_parse_i64(s: Seq<char>) -> Option<i64> {
    if s.len() >= 1 && s[0] == '-' {
        let mag = s.skip(1);
        if mag.len() > 0 && all_digits(mag) && digits_val(mag) <= 9223372036854775808 {
            Some((-digits_val(mag)) as i64)
        } else {
            None
        }
    } else {
        if s.len() > 0 && all_digits(s) && digits_val(s) <= i64::MAX {
            Some(digits_val(s) as i64)
        } else {
            None
        }
    }
}

/// Parses a decimal text, optionally signed, as an `i64`.
pub fn parse_i64(s: &str) -> (r: Option<i64>)
    ensures
        r == spec_parse_i64(s@),
{
    let n: usize = s.unicode_len();
    if n >= 1 && s.get_char(0) == '-' {
        let mag_str = s.substring_char(1, n);
        proof {
            assert(mag_str@ =~= s@.skip(1));
        }
        let r = match parse_u64(mag_str) {
            None => None,
            Some(m) => {
                if m > 9223372036854775808u64 {
                    None
                } else if m == 9223372036854775808u64 {
                    Some(i64::MIN)
                } else {
                    Some(-(m as i64))
                }
            },
        };
        proof {
            assert(s@[0] == '-');
            assert(mag_str@ == s@.skip(1));
            match spec_parse_u64(s@.skip(1)) {
                None => {
                    assert(r is None);
                    assert(spec_parse_i64(s@) is None);
                },
                Some(m) => {
                    assert(all_digits(s@.skip(1)));
                    lemma_digits_val_nonneg(s@.skip(1));
                    assert(digits_val(s@.skip(1)) == m as int);
                },
            }
        }
        r
    } else {
        proof {
            if spec_parse_u64(s@) is Some {
                assert(all_digits(s@));
                lemma_digits_val_nonneg(s@);
            }
        }
        match parse_u64(s) {
            None => None,
            Some(m) => {
                if m > i64::MAX as u64 {
                    None
                } else {
                    Some(m as i64)
                }
            },
        }
    }
}

/// The signed rendering parses back to the value it came from.
pub proof fn lemma_render_parse_i64_roundtrip(n: int)
    requires
        i64::MIN <= n <= i64::MAX,
    ensures
        spec_parse_i64(spec_render_i64(n)) == Some(n as i64),
{
    if n < 0 {
        lemma_render_digits(-n);
        let s = spec_render_i64(n);
        assert(s[0] == '-');
        assert(s.skip(1) =~= spec_render_usize(-n));
    } else {
        lemma_render_digits(n);
        let s = spec_render_usize(n);
        assert(all_digits(s) && s.len() > 0);
        assert(is_digit_char(s[0]));
        assert(s[0] != '-') by {
            assert('-' as int == 45);
        }
    }
}

/// `s` right-justified in a field of `width` blanks; never truncated.
pub open spec fn spec_pad_left(s: Seq<char>, width: int) -> Seq<char> {
    if s.len() < width {
        spec_repeat(' ', width - s.len()) + s
    } else {
        s
    }
}

/// Appends the blanks that bring `s` to `width` characters, then `s`.
pub fn append_pad_left(s: &str, width: usize, out: &mut String)
    ensures
        final(out)@ == old(out)@ + spec_pad_left(s@, width as int),
{
    let n: usize = s.unicode_len();
    if n < width {
        append_repeat(' ', width - n, out);
    }
    out.append(s);
    proof {
        assert(out@ =~= old(out)@ + spec_pad_left(s@, width as int));
    }
}

} // verus!
