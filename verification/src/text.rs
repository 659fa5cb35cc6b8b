use vstd::prelude::*;
use vstd::string::StrSliceExecFns;
use vstd::string::StringExecFns;

verus! {

/// The characters that count as whitespace when a line is trimmed
/// (the Unicode `White_Space` set).
pub open spec fn spec_is_space(c: char) -> bool {
    let n = c as int;
    n == 32 || n == 9 || n == 10 || n == 11 || n == 12 || n == 13 || n == 0x85 || n == 0xA0
        || n == 0x1680 || (0x2000 <= n <= 0x200A) || n == 0x2028 || n == 0x2029 || n == 0x202F
        || n == 0x205F || n == 0x3000
}

fn is_space(c: char) -> (r: bool)
    ensures
        r == spec_is_space(c),
{
    let n = c as u32;
    n == 32 || n == 9 || n == 10 || n == 11 || n == 12 || n == 13 || n == 0x85 || n == 0xA0
        || n == 0x1680 || (0x2000 <= n && n <= 0x200A) || n == 0x2028 || n == 0x2029
        || n == 0x202F || n == 0x205F || n == 0x3000
}

/// A text with its leading whitespace dropped.
pub open spec fn spec_trim_left(s: Seq<char>) -> Seq<char>
    decreases s.len(),
{
    if s.len() > 0 && spec_is_space(s[0]) {
        spec_trim_left(s.drop_first())
    } else {
        s
    }
}

/// A text with its trailing whitespace dropped.
pub open spec fn spec_trim_right(s: Seq<char>) -> Seq<char>
    decreases s.len(),
{
    if s.len() > 0 && spec_is_space(s[s.len() - 1]) {
        spec_trim_right(s.drop_last())
    } else {
        s
    }
}

/// A text with leading and trailing whitespace dropped.
pub open spec fn spec_trim(s: Seq<char>) -> Seq<char> {
    spec_trim_right(spec_trim_left(s))
}

proof fn lemma_trim_left_is_skip(s: Seq<char>, a: int)
    requires
        0 <= a <= s.len(),
        forall|j: int| 0 <= j < a ==> spec_is_space(s[j]),
        a < s.len() ==> !spec_is_space(s[a]),
    ensures
        spec_trim_left(s) == s.skip(a),
    decreases a,
{
    if a == 0 {
        assert(s.skip(0) =~= s);
    } else {
        lemma_trim_left_is_skip(s.drop_first(), a - 1);
        assert(s.drop_first().skip(a - 1) =~= s.skip(a));
    }
}

proof fn lemma_trim_right_is_take(s: Seq<char>, b: int)
    requires
        0 <= b <= s.len(),
        forall|j: int| b <= j < s.len() ==> spec_is_space(s[j]),
        b > 0 ==> !spec_is_space(s[b - 1]),
    ensures
        spec_trim_right(s) == s.take(b),
    decreases s.len(),
{
    if b == s.len() {
        assert(s.take(b) =~= s);
        if s.len() > 0 && spec_is_space(s[s.len() - 1]) {
            assert(false);
        }
    } else {
        lemma_trim_right_is_take(s.drop_last(), b);
        assert(s.drop_last().take(b) =~= s.take(b));
    }
}

/// Drops leading and trailing whitespace from a text.
pub fn trim(s: &str) -> (r: &str)
    ensures
        r@ == spec_trim(s@),
{
    let n = s.unicode_len();
    let mut a: usize = 0;
    while a < n && is_space(s.get_char(a))
        invariant
            a <= n,
            n == s@.len(),
            forall|j: int| 0 <= j < a ==> spec_is_space(s@[j]),
        decreases n - a,
    {
        a += 1;
    }
    let mut b: usize = n;
    while b > a && is_space(s.get_char(b - 1))
        invariant
            a <= b <= n,
            n == s@.len(),
            forall|j: int| b <= j < n ==> spec_is_space(s@[j]),
        decreases b,
    {
        b -= 1;
    }
    proof {
        lemma_trim_left_is_skip(s@, a as int);
        let u = s@.skip(a as int);
        lemma_trim_right_is_take(u, b - a as int);
        assert(u.take(b - a as int) =~= s@.subrange(a as int, b as int));
    }
    s.substring_char(a, b)
}

/// The separator occurs in `s` at position `j`.
pub open spec fn is_match(s: Seq<char>, sep: Seq<char>, j: int) -> bool {
    0 <= j && j + sep.len() <= s.len() && s.subrange(j, j + sep.len() as int) == sep
}

/// The fields of `s` between non-overlapping occurrences of `sep`, taken
/// left to right: what splitting on a delimiter yields.
pub open spec fn spec_split(s: Seq<char>, sep: Seq<char>) -> Seq<Seq<char>>
    decreases s.len(),
{
    if sep.len() == 0 || s.len() == 0 {
        seq![s]
    } else if s.len() >= sep.len() && s.subrange(0, sep.len() as int) == sep {
        seq![Seq::<char>::empty()] + spec_split(s.subrange(sep.len() as int, s.len() as int), sep)
    } else {
        let rest = spec_split(s.drop_first(), sep);
        rest.update(0, seq![s[0]] + rest[0])
    }
}

proof fn lemma_split_nonempty(s: Seq<char>, sep: Seq<char>)
    ensures
        spec_split(s, sep).len() >= 1,
    decreases s.len(),
{
    if sep.len() == 0 || s.len() == 0 {
    } else if s.len() >= sep.len() && s.subrange(0, sep.len() as int) == sep {
        lemma_split_nonempty(s.subrange(sep.len() as int, s.len() as int), sep);
    } else {
        lemma_split_nonempty(s.drop_first(), sep);
    }
}

proof fn lemma_split_no_match(s: Seq<char>, sep: Seq<char>)
    requires
        sep.len() >= 1,
        forall|k: int| !is_match(s, sep, k),
    ensures
        spec_split(s, sep) == seq![s],
    decreases s.len(),
{
    if s.len() == 0 {
    } else {
        if s.len() >= sep.len() && s.subrange(0, sep.len() as int) == sep {
            assert(is_match(s, sep, 0));
        }
        assert forall|k: int| !is_match(s.drop_first(), sep, k) by {
            if is_match(s.drop_first(), sep, k) {
                assert(s.subrange(k + 1, k + 1 + sep.len() as int) =~= s.drop_first().subrange(
                    k,
                    k + sep.len() as int,
                ));
                assert(is_match(s, sep, k + 1));
            }
        }
        lemma_split_no_match(s.drop_first(), sep);
        let rest = spec_split(s.drop_first(), sep);
        assert(rest == seq![s.drop_first()]);
        assert(seq![s[0]] + s.drop_first() =~= s);
        assert(rest.update(0, seq![s[0]] + rest[0]) =~= seq![s]);
    }
}

proof fn lemma_split_first_match(s: Seq<char>, sep: Seq<char>, j: int)
    requires
        sep.len() >= 1,
        is_match(s, sep, j),
        forall|k: int| 0 <= k < j ==> !is_match(s, sep, k),
    ensures
        spec_split(s, sep) == seq![s.take(j)] + spec_split(s.skip(j + sep.len()), sep),
    decreases j,
{
    if j == 0 {
        assert(s.take(0) =~= Seq::<char>::empty());
        assert(s.subrange(sep.len() as int, s.len() as int) =~= s.skip(sep.len() as int));
    } else {
        if s.len() >= sep.len() && s.subrange(0, sep.len() as int) == sep {
            assert(is_match(s, sep, 0));
        }
        let t = s.drop_first();
        assert(t.subrange(j - 1, j - 1 + sep.len() as int) =~= s.subrange(
            j,
            j + sep.len() as int,
        ));
        assert(is_match(t, sep, j - 1));
        assert forall|k: int| 0 <= k < j - 1 implies !is_match(t, sep, k) by {
            if is_match(t, sep, k) {
                assert(s.subrange(k + 1, k + 1 + sep.len() as int) =~= t.subrange(
                    k,
                    k + sep.len() as int,
                ));
                assert(is_match(s, sep, k + 1));
            }
        }
        lemma_split_first_match(t, sep, j - 1);
        lemma_split_nonempty(t.skip(j - 1 + sep.len()), sep);
        let rest = spec_split(t, sep);
        assert(rest == seq![t.take(j - 1)] + spec_split(t.skip(j - 1 + sep.len()), sep));
        assert(t.skip(j - 1 + sep.len()) =~= s.skip(j + sep.len()));
        assert(rest[0] == t.take(j - 1));
        assert(seq![s[0]] + t.take(j - 1) =~= s.take(j));
        assert(rest.update(0, seq![s.take(j)][0]) =~= seq![s.take(j)] + spec_split(
            s.skip(j + sep.len()),
            sep,
        ));
    }
}

/// Whether the separator occurs at position `i` of `s`.
fn is_match_at(s: &str, sep: &str, i: usize) -> (r: bool)
    requires
        i + sep@.len() <= s@.len(),
    ensures
        r == is_match(s@, sep@, i as int),
{
    let n = s.unicode_len();
    let m = sep.unicode_len();
    let mut k: usize = 0;
    while k < m
        invariant
            k <= m,
            m == sep@.len(),
            n == s@.len(),
            i + m <= n,
            forall|l: int| 0 <= l < k ==> s@[i + l] == sep@[l],
        decreases m - k,
    {
        if s.get_char(i + k) != sep.get_char(k) {
            proof {
                if is_match(s@, sep@, i as int) {
                    assert(s@.subrange(i as int, i + m as int)[k as int] == s@[i + k]);
                }
            }
            return false;
        }
        k += 1;
    }
    proof {
        assert(s@.subrange(i as int, i + m as int) =~= sep@);
    }
    true
}

/// The position of the first occurrence of `sep` in `s`, if any.
fn find_sep(s: &str, sep: &str) -> (r: Option<usize>)
    requires
        sep@.len() >= 1,
    ensures
        match r {
            Some(j) => is_match(s@, sep@, j as int) && forall|k: int|
                0 <= k < j ==> !is_match(s@, sep@, k),
            None => forall|k: int| !is_match(s@, sep@, k),
        },
{
    let n = s.unicode_len();
    let m = sep.unicode_len();
    if m > n {
        return None;
    }
    let mut i: usize = 0;
    while i <= n - m
        invariant
            m == sep@.len(),
            n == s@.len(),
            1 <= m <= n,
            i <= n - m + 1,
            forall|k: int| 0 <= k < i ==> !is_match(s@, sep@, k),
        decreases n - m - i + 1,
    {
        if is_match_at(s, sep, i) {
            return Some(i);
        }
        i += 1;
    }
    None
}

/// Splits `s` on the two-or-more character separator `sep`, left to right,
/// the way the leftmost-split rule reads a delimited record.
pub fn split_str(s: &str, sep: &str) -> (r: Vec<String>)
    requires
        sep@.len() >= 1,
    ensures
        r.deep_view() == spec_split(s@, sep@),
{
    let mut out: Vec<String> = Vec::new();
    let mut rest: String = s.to_owned();
    let mut done = false;
    while !done
        invariant
            sep@.len() >= 1,
            !done ==> spec_split(s@, sep@) == out.deep_view() + spec_split(rest@, sep@),
            done ==> out.deep_view() == spec_split(s@, sep@),
        decreases rest@.len(), (if done { 0int } else { 1int }),
    {
        let ghost prev_out = out.deep_view();
        match find_sep(rest.as_str(), sep) {
            Some(j) => {
                let n = rest.as_str().unicode_len();
                let m = sep.unicode_len();
                let field: String = rest.as_str().substring_char(0, j).to_owned();
                let tail: String = rest.as_str().substring_char(j + m, n).to_owned();
                proof {
                    lemma_split_first_match(rest@, sep@, j as int);
                    assert(rest@.subrange(0, j as int) =~= rest@.take(j as int));
                    assert(rest@.subrange(j + m as int, n as int) =~= rest@.skip(
                        j + sep@.len(),
                    ));
                }
                out.push(field);
                proof {
                    assert(out.deep_view() =~= prev_out.push(rest@.take(j as int)));
                    assert(prev_out.push(rest@.take(j as int)) =~= prev_out + seq![
                        rest@.take(j as int),
                    ]);
                    assert((prev_out + seq![rest@.take(j as int)]) + spec_split(
                        rest@.skip(j + sep@.len()),
                        sep@,
                    ) =~= prev_out + (seq![rest@.take(j as int)] + spec_split(
                        rest@.skip(j + sep@.len()),
                        sep@,
                    )));
                }
                rest = tail;
            },
            None => {
                proof {
                    lemma_split_no_match(rest@, sep@);
                }
                out.push(rest);
                proof {
                    assert(out.deep_view() =~= prev_out + seq![spec_split(s@, sep@)[prev_out.len() as int]]);
                }
                rest = String::new();
                done = true;
            },
        }
    }
    out
}

/// A decimal digit.
pub open spec fn is_digit(c: char) -> bool {
    48 <= c as int <= 57
}

/// Every character of the text is a decimal digit.
pub open spec fn all_digits(s: Seq<char>) -> bool {
    forall|i: int| 0 <= i < s.len() ==> is_digit(#[trigger] s[i])
}

/// The numeric value of a decimal digit.
pub open spec fn digit_val(c: char) -> int {
    c as int - 48
}

/// The numeric value of a text of decimal digits, most significant first.
pub open spec fn digits_val(s: Seq<char>) -> int
    decreases s.len(),
{
    if s.len() == 0 {
        0
    } else {
        digits_val(s.drop_last()) * 10 + digit_val(s.last())
    }
}

proof fn lemma_digits_val_nonneg(s: Seq<char>)
    requires
        all_digits(s),
    ensures
        digits_val(s) >= 0,
    decreases s.len(),
{
    if s.len() > 0 {
        assert(forall|i: int| 0 <= i < s.drop_last().len() ==> is_digit(#[trigger] s.drop_last()[i]));
        lemma_digits_val_nonneg(s.drop_last());
    }
}

proof fn lemma_digits_val_grows(s: Seq<char>, k: int)
    requires
        all_digits(s),
        0 <= k <= s.len(),
    ensures
        digits_val(s.take(k)) <= digits_val(s),
    decreases s.len() - k,
{
    if k == s.len() {
        assert(s.take(k) =~= s);
    } else {
        assert(s.take(k + 1).drop_last() =~= s.take(k));
        assert(forall|i: int| 0 <= i < s.take(k).len() ==> is_digit(#[trigger] s.take(k)[i]));
        lemma_digits_val_nonneg(s.take(k));
        assert(digits_val(s.take(k + 1)) == digits_val(s.take(k)) * 10 + digit_val(s[k]));
        lemma_digits_val_grows(s, k + 1);
    }
}

/// Reads a text as a non-negative decimal integer: `Some` exactly when the
/// text is one or more decimal digits whose value fits in a `u32`.
pub fn parse_u32(s: &str) -> (r: Option<u32>)
    ensures
        match r {
            Some(v) => s@.len() >= 1 && all_digits(s@) && digits_val(s@) == v as int,
            None => s@.len() == 0 || !all_digits(s@) || digits_val(s@) > u32::MAX,
        },
{
    let n = s.unicode_len();
    if n == 0 {
        return None;
    }
    let mut acc: u64 = 0;
    let mut i: usize = 0;
    while i < n
        invariant
            i <= n,
            n == s@.len(),
            forall|j: int| 0 <= j < i ==> is_digit(#[trigger] s@[j]),
            acc == digits_val(s@.take(i as int)),
            acc <= u32::MAX,
        decreases n - i,
    {
        let c = s.get_char(i);
        let code = c as u32;
        if code < 48 || code > 57 {
            return None;
        }
        let d: u64 = (code - 48) as u64;
        proof {
            assert(s@.take(i as int + 1).drop_last() =~= s@.take(i as int));
            assert(forall|j: int|
                0 <= j < s@.take(i as int).len() ==> is_digit(#[trigger] s@.take(i as int)[j]));
        }
        let next: u64 = acc * 10 + d;
        if next > 0xFFFF_FFFF {
            proof {
                if all_digits(s@) {
                    lemma_digits_val_grows(s@, i as int + 1);
                }
            }
            return None;
        }
        acc = next;
        i += 1;
    }
    proof {
        assert(s@.take(n as int) =~= s@);
    }
    Some(acc as u32)
}

/// The character for one decimal digit value.
pub open spec fn digit_char(d: int) -> char {
    if d == 0 {
        '0'
    } else if d == 1 {
        '1'
    } else if d == 2 {
        '2'
    } else if d == 3 {
        '3'
    } else if d == 4 {
        '4'
    } else if d == 5 {
        '5'
    } else if d == 6 {
        '6'
    } else if d == 7 {
        '7'
    } else if d == 8 {
        '8'
    } else {
        '9'
    }
}

/// The decimal digits of a non-negative number, most significant first.
pub open spec fn dec_digits(v: int) -> Seq<char>
    decreases v,
{
    if v < 10 {
        seq![digit_char(v)]
    } else {
        dec_digits(v / 10) + seq![digit_char(v % 10)]
    }
}

/// One decimal digit as text.
fn digit_str(d: u32) -> (r: &'static str)
    requires
        d < 10,
    ensures
        r@ == seq![digit_char(d as int)],
{
    proof {
        reveal_strlit("0");
        reveal_strlit("1");
        reveal_strlit("2");
        reveal_strlit("3");
        reveal_strlit("4");
        reveal_strlit("5");
        reveal_strlit("6");
        reveal_strlit("7");
        reveal_strlit("8");
        reveal_strlit("9");
    }
    let r = if d == 0 {
        "0"
    } else if d == 1 {
        "1"
    } else if d == 2 {
        "2"
    } else if d == 3 {
        "3"
    } else if d == 4 {
        "4"
    } else if d == 5 {
        "5"
    } else if d == 6 {
        "6"
    } else if d == 7 {
        "7"
    } else if d == 8 {
        "8"
    } else {
        "9"
    };
    proof {
        assert(r@ =~= seq![digit_char(d as int)]);
    }
    r
}

/// Appends the decimal digits of `v` to `out`.
pub fn push_u32_decimal(out: &mut String, v: u32)
    ensures
        final(out)@ == old(out)@ + dec_digits(v as int),
    decreases v,
{
    if v < 10 {
        out.append(digit_str(v));
    } else {
        push_u32_decimal(out, v / 10);
        out.append(digit_str(v % 10));
        proof {
            assert(old(out)@ + dec_digits(v as int / 10) + seq![digit_char(v as int % 10)] =~= old(
                out,
            )@ + dec_digits(v as int));
        }
    }
}

/// Renders a number in decimal.
pub fn u32_to_string(v: u32) -> (r: String)
    ensures
        r@ == dec_digits(v as int),
{
    let mut out = String::new();
    push_u32_decimal(&mut out, v);
    proof {
        assert(Seq::<char>::empty() + dec_digits(v as int) =~= dec_digits(v as int));
    }
    out
}

} // verus!
