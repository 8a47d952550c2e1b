//! Character-level helpers shared by the field parsers: digit and
//! whitespace classification, digit-run scanning, and decimal values.

use vstd::prelude::*;
use vstd::string::StrSliceExecFns;

verus! {

/// Whether `c` is an ASCII decimal digit.
pub open spec fn is_digit(c: char) -> bool {
    '0' as u32 <= c as u32 && c as u32 <= '9' as u32
}

/// The numeric value of an ASCII decimal digit.
pub open spec fn digit_val(c: char) -> nat {
    (c as u32 - '0' as u32) as nat
}

/// Whether `c` has the Unicode `White_Space` property, the set both
/// `char::is_whitespace` and the usual regex `\s` class recognise.
pub open spec fn is_space(c: char) -> bool {
    let u = c as u32;
    (0x09 <= u && u <= 0x0d) || u == 0x20 || u == 0x85 || u == 0xa0 || u == 0x1680 || (0x2000 <= u
        && u <= 0x200a) || u == 0x2028 || u == 0x2029 || u == 0x202f || u == 0x205f || u == 0x3000
}

/// Whether every character of `s` is an ASCII decimal digit.
pub open spec fn all_digits(s: Seq<char>) -> bool {
    forall|i: int| 0 <= i < s.len() ==> is_digit(#[trigger] s[i])
}

/// The number read from a sequence of decimal digits, most significant first.
pub open spec fn digits_val(s: Seq<char>) -> nat
    decreases s.len(),
{
    if s.len() == 0 {
        0
    } else {
        digits_val(s.drop_last()) * 10 + digit_val(s.last())
    }
}

/// Length of the longest digit-only prefix of `s`.
pub open spec fn digit_prefix_len(s: Seq<char>) -> nat
    decreases s.len(),
{
    if s.len() == 0 || !is_digit(s[0]) {
        0
    } else {
        1 + digit_prefix_len(s.drop_first())
    }
}

/// Length of the longest digit-only suffix of `s`.
pub open spec fn digit_suffix_len(s: Seq<char>) -> nat
    decreases s.len(),
{
    if s.len() == 0 || !is_digit(s.last()) {
        0
    } else {
        1 + digit_suffix_len(s.drop_last())
    }
}

/// Number of leading characters of `s` with the `White_Space` property.
pub open spec fn space_prefix_len(s: Seq<char>) -> nat
    decreases s.len(),
{
    if s.len() == 0 || !is_space(s[0]) {
        0
    } else {
        1 + space_prefix_len(s.drop_first())
    }
}

/// Number of trailing characters of `s` with the `White_Space` property.
pub open spec fn space_suffix_len(s: Seq<char>) -> nat
    decreases s.len(),
{
    if s.len() == 0 || !is_space(s.last()) {
        0
    } else {
        1 + space_suffix_len(s.drop_last())
    }
}

/// `s` with leading and trailing whitespace removed.
pub open spec fn spec_trim(s: Seq<char>) -> Seq<char> {
    let lo = space_prefix_len(s) as int;
    if lo == s.len() {
        Seq::empty()
    } else {
        s.subrange(lo, s.len() - space_suffix_len(s) as int)
    }
}

/// 10 to the `n`th power.
pub open spec fn pow10(n: nat) -> nat
    decreases n,
{
    if n == 0 {
        1
    } else {
        10 * pow10((n - 1) as nat)
    }
}

/// The characters of `s`, as a vector.
pub fn chars_of(s: &str) -> (v: Vec<char>)
    ensures
        v@ == s@,
{
    let n = s.unicode_len();
    let mut v: Vec<char> = Vec::new();
    let mut i: usize = 0;
    while i < n
        invariant
            i <= n,
            n == s@.len(),
            v@ == s@.take(i as int),
        decreases n - i,
    {
        let c = s.get_char(i);
        v.push(c);
        proof {
            assert(v@ =~= s@.take(i + 1));
        }
        i += 1;
    }
    proof {
        assert(v@ =~= s@);
    }
    v
}

/// Whether `c` is an ASCII decimal digit.
#[verifier::when_used_as_spec(is_digit)]
pub fn digit(c: char) -> (r: bool)
    ensures
        r == is_digit(c),
{
    let u = c as u32;
    '0' as u32 <= u && u <= '9' as u32
}

/// Whether `c` has the Unicode `White_Space` property.
#[verifier::when_used_as_spec(is_space)]
pub fn space(c: char) -> (r: bool)
    ensures
        r == is_space(c),
{
    let u = c as u32;
    (0x09 <= u && u <= 0x0d) || u == 0x20 || u == 0x85 || u == 0xa0 || u == 0x1680 || (0x2000 <= u
        && u <= 0x200a) || u == 0x2028 || u == 0x2029 || u == 0x202f || u == 0x205f || u == 0x3000
}

proof fn lemma_digit_prefix_len_step(s: Seq<char>, k: nat)
    requires
        k < s.len(),
        forall|i: int| 0 <= i < k ==> is_digit(#[trigger] s[i]),
        !is_digit(s[k as int]),
    ensures
        digit_prefix_len(s) == k,
    decreases s.len(),
{
    if k == 0 {
    } else {
        lemma_digit_prefix_len_step(s.drop_first(), (k - 1) as nat);
    }
}

proof fn lemma_digit_prefix_len_all(s: Seq<char>)
    requires
        all_digits(s),
    ensures
        digit_prefix_len(s) == s.len(),
    decreases s.len(),
{
    if s.len() > 0 {
        assert(all_digits(s.drop_first()));
        lemma_digit_prefix_len_all(s.drop_first());
    }
}

/// Index just past the digit run starting at `from` in `v[from..to]`: every
/// character in `from..r` is a digit and `r` is `to` or a non-digit position.
pub fn scan_digits(v: &Vec<char>, from: usize, to: usize) -> (r: usize)
    requires
        from <= to <= v@.len(),
    ensures
        from <= r <= to,
        r - from == digit_prefix_len(v@.subrange(from as int, to as int)),
        forall|i: int| from <= i < r ==> is_digit(#[trigger] v@[i]),
        r < to ==> !is_digit(v@[r as int]),
{
    let mut i = from;
    while i < to && digit(v[i])
        invariant
            from <= i <= to <= v@.len(),
            forall|j: int| from <= j < i ==> is_digit(#[trigger] v@[j]),
        decreases to - i,
    {
        i += 1;
    }
    proof {
        let tail = v@.subrange(from as int, to as int);
        if i < to {
            lemma_digit_prefix_len_step(tail, (i - from) as nat);
        } else {
            assert(all_digits(tail));
            lemma_digit_prefix_len_all(tail);
        }
    }
    i
}

/// Length of the prefix of `s` before its first comma.
pub open spec fn comma_free_prefix(s: Seq<char>) -> nat
    decreases s.len(),
{
    if s.len() == 0 || s[0] == ',' {
        0
    } else {
        1 + comma_free_prefix(s.drop_first())
    }
}

/// `s` split on commas, as for the catalog's comma-separated list fields.
pub open spec fn split_commas(s: Seq<char>) -> Seq<Seq<char>>
    decreases s.len(),
{
    let k = comma_free_prefix(s) as int;
    if k >= s.len() {
        seq![s]
    } else {
        seq![s.take(k)] + split_commas(s.skip(k + 1))
    }
}

/// Length of the prefix of `s` before its first ", " separator.
pub open spec fn sep2_free_prefix(s: Seq<char>) -> nat
    decreases s.len(),
{
    if s.len() < 2 {
        s.len()
    } else if s[0] == ',' && s[1] == ' ' {
        0
    } else {
        1 + sep2_free_prefix(s.drop_first())
    }
}

/// `s` split on the two-character separator ", ".
pub open spec fn split_comma_space(s: Seq<char>) -> Seq<Seq<char>>
    decreases s.len(),
{
    let k = sep2_free_prefix(s) as int;
    if k + 2 > s.len() {
        seq![s]
    } else {
        seq![s.take(k)] + split_comma_space(s.skip(k + 2))
    }
}

proof fn lemma_comma_free_prefix_step(s: Seq<char>, k: nat)
    requires
        k < s.len(),
        forall|i: int| 0 <= i < k ==> #[trigger] s[i] != ',',
        s[k as int] == ',',
    ensures
        comma_free_prefix(s) == k,
    decreases s.len(),
{
    if k > 0 {
        lemma_comma_free_prefix_step(s.drop_first(), (k - 1) as nat);
    }
}

proof fn lemma_comma_free_prefix_all(s: Seq<char>)
    requires
        forall|i: int| 0 <= i < s.len() ==> #[trigger] s[i] != ',',
    ensures
        comma_free_prefix(s) == s.len(),
    decreases s.len(),
{
    if s.len() > 0 {
        lemma_comma_free_prefix_all(s.drop_first());
    }
}

/// Index of the first comma at or after `from` in `v[from..to]`, or `to`.
pub fn scan_comma(v: &Vec<char>, from: usize, to: usize) -> (r: usize)
    requires
        from <= to <= v@.len(),
    ensures
        from <= r <= to,
        r - from == comma_free_prefix(v@.subrange(from as int, to as int)),
        forall|i: int| from <= i < r ==> #[trigger] v@[i] != ',',
        r < to ==> v@[r as int] == ',',
{
    let mut i = from;
    while i < to && v[i] != ','
        invariant
            from <= i <= to <= v@.len(),
            forall|j: int| from <= j < i ==> #[trigger] v@[j] != ',',
        decreases to - i,
    {
        i += 1;
    }
    proof {
        let tail = v@.subrange(from as int, to as int);
        if i < to {
            lemma_comma_free_prefix_step(tail, (i - from) as nat);
        } else {
            lemma_comma_free_prefix_all(tail);
        }
    }
    i
}

proof fn lemma_sep2_free_prefix_step(s: Seq<char>, k: nat)
    requires
        k + 1 < s.len(),
        forall|i: int| 0 <= i < k ==> !(#[trigger] s[i] == ',' && s[i + 1] == ' '),
        s[k as int] == ',' && s[k as int + 1] == ' ',
    ensures
        sep2_free_prefix(s) == k,
    decreases s.len(),
{
    if k > 0 {
        lemma_sep2_free_prefix_step(s.drop_first(), (k - 1) as nat);
    }
}

proof fn lemma_sep2_free_prefix_all(s: Seq<char>)
    requires
        forall|i: int| 0 <= i && i + 1 < s.len() ==> !(#[trigger] s[i] == ',' && s[i + 1] == ' '),
    ensures
        sep2_free_prefix(s) == s.len(),
    decreases s.len(),
{
    if s.len() >= 2 {
        lemma_sep2_free_prefix_all(s.drop_first());
    }
}

/// Index of the first ", " separator at or after `from` in `v[from..to]`,
/// or `to` when there is none.
pub fn scan_sep2(v: &Vec<char>, from: usize, to: usize) -> (r: usize)
    requires
        from <= to <= v@.len(),
    ensures
        from <= r <= to,
        r < to ==> r - from == sep2_free_prefix(v@.subrange(from as int, to as int)),
        r == to ==> sep2_free_prefix(v@.subrange(from as int, to as int)) + 2 > to - from,
        r < to ==> r + 1 < to && v@[r as int] == ',' && v@[r + 1] == ' ',
{
    let mut i = from;
    while i < to && to - i >= 2 && !(v[i] == ',' && v[i + 1] == ' ')
        invariant
            from <= i <= to <= v@.len(),
            forall|j: int| from <= j < i ==> !(#[trigger] v@[j] == ',' && v@[j + 1] == ' '),
        decreases to - i,
    {
        i += 1;
    }
    proof {
        let tail = v@.subrange(from as int, to as int);
        if i < to && to - i >= 2 {
            lemma_sep2_free_prefix_step(tail, (i - from) as nat);
        } else {
            assert(forall|j: int|
                0 <= j && j + 1 < tail.len() ==> !(#[trigger] tail[j] == ',' && tail[j + 1]
                    == ' '));
            lemma_sep2_free_prefix_all(tail);
        }
    }
    if i < to && to - i >= 2 {
        i
    } else {
        to
    }
}

proof fn lemma_digit_suffix_len_step(s: Seq<char>, k: nat)
    requires
        k < s.len(),
        forall|i: int| s.len() - k <= i < s.len() ==> is_digit(#[trigger] s[i]),
        !is_digit(s[s.len() - k - 1]),
    ensures
        digit_suffix_len(s) == k,
    decreases s.len(),
{
    if k > 0 {
        lemma_digit_suffix_len_step(s.drop_last(), (k - 1) as nat);
    }
}

proof fn lemma_digit_suffix_len_all(s: Seq<char>)
    requires
        all_digits(s),
    ensures
        digit_suffix_len(s) == s.len(),
    decreases s.len(),
{
    if s.len() > 0 {
        assert(all_digits(s.drop_last()));
        lemma_digit_suffix_len_all(s.drop_last());
    }
}

/// Start of the digit run ending at `hi` in `v[lo..hi]`: every character in
/// `r..hi` is a digit and `r` is `lo` or preceded by a non-digit.
pub fn scan_digits_back(v: &Vec<char>, lo: usize, hi: usize) -> (r: usize)
    requires
        lo <= hi <= v@.len(),
    ensures
        lo <= r <= hi,
        hi - r == digit_suffix_len(v@.subrange(lo as int, hi as int)),
        forall|i: int| r <= i < hi ==> is_digit(#[trigger] v@[i]),
        r > lo ==> !is_digit(v@[r - 1]),
{
    let mut i = hi;
    while i > lo && digit(v[i - 1])
        invariant
            lo <= i <= hi <= v@.len(),
            forall|j: int| i <= j < hi ==> is_digit(#[trigger] v@[j]),
        decreases i,
    {
        i -= 1;
    }
    proof {
        let tail = v@.subrange(lo as int, hi as int);
        if i > lo {
            lemma_digit_suffix_len_step(tail, (hi - i) as nat);
        } else {
            assert(all_digits(tail));
            lemma_digit_suffix_len_all(tail);
        }
    }
    i
}




/// The characters of `v[a..b]` followed by those of `v[c..d]`.
pub fn collect_two(v: &Vec<char>, a: usize, b: usize, c: usize, d: usize) -> (out: Vec<char>)
    requires
        a <= b <= v@.len(),
        c <= d <= v@.len(),
    ensures
        out@ == v@.subrange(a as int, b as int) + v@.subrange(c as int, d as int),
{
    let mut out: Vec<char> = Vec::new();
    let mut i = a;
    while i < b
        invariant
            a <= i <= b <= v@.len(),
            out@ == v@.subrange(a as int, i as int),
        decreases b - i,
    {
        let ch = v[i];
        out.push(ch);
        proof {
            assert(out@ =~= v@.subrange(a as int, i + 1));
        }
        i += 1;
    }
    let mut j = c;
    while j < d
        invariant
            c <= j <= d <= v@.len(),
            a <= b <= v@.len(),
            out@ == v@.subrange(a as int, b as int) + v@.subrange(c as int, j as int),
        decreases d - j,
    {
        let ch = v[j];
        out.push(ch);
        proof {
            assert(out@ =~= v@.subrange(a as int, b as int) + v@.subrange(c as int, j + 1));
        }
        j += 1;
    }
    out
}

/// Ten to the `n`th, computed exactly in 128-bit arithmetic.
pub fn pow10_u128(n: u64) -> (r: u128)
    requires
        n <= 38,
    ensures
        r == pow10(n as nat),
{
    proof {
        lemma_pow10_38();
    }
    let mut acc: u128 = 1;
    let mut i: u64 = 0;
    while i < n
        invariant
            i <= n <= 38,
            acc == pow10(i as nat),
        decreases n - i,
    {
        proof {
            lemma_pow10_38();
            lemma_pow10_monotone((i + 1) as nat, 38);
            assert(pow10((i + 1) as nat) == 10 * pow10(i as nat));
        }
        acc = acc * 10;
        i += 1;
    }
    acc
}

/// The value of `pow10(38)`, spelled out.
pub proof fn lemma_pow10_38()
    ensures
        pow10(38) == 100000000000000000000000000000000000000,
{
    reveal_with_fuel(pow10, 40);
}

/// Larger exponents give larger powers of ten.
pub proof fn lemma_pow10_monotone(a: nat, b: nat)
    requires
        a <= b,
    ensures
        pow10(a) <= pow10(b),
    decreases b,
{
    if a < b {
        lemma_pow10_monotone(a, (b - 1) as nat);
        assert(pow10(b) == 10 * pow10((b - 1) as nat));
    }
}

proof fn lemma_digits_val_snoc(s: Seq<char>, i: int)
    requires
        0 <= i < s.len(),
    ensures
        digits_val(s.take(i + 1)) == digits_val(s.take(i)) * 10 + digit_val(s[i]),
{
    assert(s.take(i + 1).drop_last() =~= s.take(i));
    assert(s.take(i + 1).last() == s[i]);
}

/// The value of a sequence can only grow as more digits are appended.
proof fn lemma_digits_val_prefix_le(s: Seq<char>, i: int)
    requires
        0 <= i <= s.len(),
    ensures
        digits_val(s.take(i)) <= digits_val(s),
    decreases s.len() - i,
{
    if i == s.len() {
        assert(s.take(i) =~= s);
    } else {
        lemma_digits_val_snoc(s, i);
        lemma_digits_val_prefix_le(s, i + 1);
        assert(digits_val(s.take(i)) <= digits_val(s.take(i)) * 10 + digit_val(s[i]))
            by (nonlinear_arith);
    }
}

/// Reads the number written by the digits `v[from..to]`, or reports that it
/// does not fit in a `u64`.
pub fn read_digits(v: &Vec<char>, from: usize, to: usize) -> (r: Option<u64>)
    requires
        from <= to <= v@.len(),
        forall|i: int| from <= i < to ==> is_digit(#[trigger] v@[i]),
    ensures
        ({
            let val = digits_val(v@.subrange(from as int, to as int));
            match r {
                Some(m) => m == val,
                None => val > u64::MAX,
            }
        }),
{
    let ghost digits = v@.subrange(from as int, to as int);
    let mut acc: u64 = 0;
    let mut i = from;
    while i < to
        invariant
            from <= i <= to <= v@.len(),
            forall|j: int| from <= j < to ==> is_digit(#[trigger] v@[j]),
            digits == v@.subrange(from as int, to as int),
            acc == digits_val(digits.take(i - from)),
        decreases to - i,
    {
        let c = v[i];
        let d: u64 = (c as u32 - '0' as u32) as u64;
        proof {
            lemma_digits_val_snoc(digits, i - from);
            assert(digits[i - from] == v@[i as int]);
        }
        if acc > (u64::MAX - d) / 10 {
            proof {
                assert(digits_val(digits.take(i - from + 1)) == acc * 10 + d);
                assert(acc * 10 + d > u64::MAX) by (nonlinear_arith)
                    requires
                        acc > (u64::MAX - d) / 10,
                        d <= 9,
                ;
                lemma_digits_val_prefix_le(digits, i - from + 1);
            }
            return None;
        }
        proof {
            assert(acc * 10 + d <= u64::MAX) by (nonlinear_arith)
                requires
                    acc <= (u64::MAX - d) / 10,
                    d <= 9,
            ;
        }
        acc = acc * 10 + d;
        i += 1;
    }
    proof {
        assert(digits.take(to - from) =~= digits);
    }
    Some(acc)
}

/// Bounds of `v[lo..hi]` once whitespace is stripped from both ends:
/// the trimmed text is `v[r.0..r.1]`.
pub fn trim_range(v: &Vec<char>, lo: usize, hi: usize) -> (r: (usize, usize))
    requires
        lo <= hi <= v@.len(),
    ensures
        lo <= r.0 <= r.1 <= hi,
        v@.subrange(r.0 as int, r.1 as int) == spec_trim(v@.subrange(lo as int, hi as int)),
        r.0 < r.1 ==> !is_space(v@[r.0 as int]) && !is_space(v@[r.1 - 1]),
{
    let ghost s = v@.subrange(lo as int, hi as int);
    let mut a = lo;
    while a < hi && space(v[a])
        invariant
            lo <= a <= hi <= v@.len(),
            forall|j: int| lo <= j < a ==> is_space(#[trigger] v@[j]),
        decreases hi - a,
    {
        a += 1;
    }
    proof {
        if a < hi {
            lemma_space_prefix_len_step(s, (a - lo) as nat);
        } else {
            lemma_space_prefix_len_all(s);
        }
    }
    if a == hi {
        proof {
            assert(v@.subrange(a as int, a as int) =~= Seq::<char>::empty());
        }
        return (a, a);
    }
    let mut b = hi;
    while b > a && space(v[b - 1])
        invariant
            a <= b <= hi,
            hi <= v@.len(),
            forall|j: int| b <= j < hi ==> is_space(#[trigger] v@[j]),
        decreases b,
    {
        b -= 1;
    }
    proof {
        assert(!is_space(s[a - lo]));
        assert(b > a) by {
            if b == a {
                assert(is_space(v@[a as int]));
            }
        }
        lemma_space_suffix_len_step(s, (hi - b) as nat, (a - lo) as nat);
        assert(v@.subrange(a as int, b as int) =~= s.subrange(
            space_prefix_len(s) as int,
            s.len() - space_suffix_len(s) as int,
        ));
    }
    (a, b)
}

proof fn lemma_space_prefix_len_step(s: Seq<char>, k: nat)
    requires
        k < s.len(),
        forall|i: int| 0 <= i < k ==> is_space(#[trigger] s[i]),
        !is_space(s[k as int]),
    ensures
        space_prefix_len(s) == k,
    decreases s.len(),
{
    if k == 0 {
    } else {
        lemma_space_prefix_len_step(s.drop_first(), (k - 1) as nat);
    }
}

proof fn lemma_space_prefix_len_all(s: Seq<char>)
    requires
        forall|i: int| 0 <= i < s.len() ==> is_space(#[trigger] s[i]),
    ensures
        space_prefix_len(s) == s.len(),
    decreases s.len(),
{
    if s.len() > 0 {
        lemma_space_prefix_len_all(s.drop_first());
    }
}

proof fn lemma_space_suffix_len_step(s: Seq<char>, k: nat, stop: nat)
    requires
        k + stop < s.len(),
        forall|i: int| s.len() - k <= i < s.len() ==> is_space(#[trigger] s[i]),
        !is_space(s[s.len() - k - 1]),
    ensures
        space_suffix_len(s) == k,
    decreases s.len(),
{
    if k == 0 {
    } else {
        lemma_space_suffix_len_step(s.drop_last(), (k - 1) as nat, stop);
    }
}

} // verus!
