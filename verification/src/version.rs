//! The version comparator: dot-separated numeric version strings, an
//! optional leading `v` stripped from each operand, segments parsed as
//! non-negative integers (a non-numeric or missing segment counts as zero)
//! and compared segment by segment up to the longer operand's length.

use crate::font::find_first;
use crate::font::find_first_char;
use crate::font::lemma_find_first_props;
use vstd::prelude::*;
use vstd::string::StrSliceExecFns;
use vstd::string::StringExecFns;

verus! {

/// The numeric value of a digit character.
pub open spec fn digit_val(c: char) -> int {
    c as int - 48
}

/// Whether `c` is an ASCII decimal digit.
pub open spec fn is_digit(c: char) -> bool {
    48 <= c as int <= 57
}

/// Whether every character of `s` is a decimal digit.
pub open spec fn digits_only(s: Seq<char>) -> bool {
    forall|i: int| 0 <= i < s.len() ==> is_digit(s[i])
}

/// A segment parses as a number exactly when it is non-empty and all
/// digits.
pub open spec fn is_numeric(s: Seq<char>) -> bool {
    s.len() > 0 && digits_only(s)
}

/// Ten to the power `n`.
pub open spec fn pow10(n: nat) -> int
    decreases n,
{
    if n == 0 {
        1
    } else {
        10 * pow10((n - 1) as nat)
    }
}

/// The number a digit string denotes, most significant digit first.
pub open spec fn digits_val(s: Seq<char>) -> int
    decreases s.len(),
{
    if s.len() == 0 {
        0
    } else {
        digit_val(s[0]) * pow10((s.len() - 1) as nat) + digits_val(s.skip(1))
    }
}

/// The value a version segment contributes: its parsed number when it is
/// numeric, zero otherwise.
pub open spec fn seg_val(s: Seq<char>) -> int {
    if is_numeric(s) {
        digits_val(s)
    } else {
        0
    }
}

/// The operand with one leading `v` removed, if it has one.
pub open spec fn strip_v(s: Seq<char>) -> Seq<char> {
    if s.len() > 0 && s[0] == 'v' {
        s.skip(1)
    } else {
        s
    }
}

/// The operand split on `.`: the empty string is one empty segment, and
/// every `.` starts a further segment.
pub open spec fn segments(s: Seq<char>) -> Seq<Seq<char>>
    decreases s.len(),
{
    let k = find_first(s, '.');
    if 0 <= k < s.len() {
        seq![s.take(k)] + segments(s.skip(k + 1))
    } else {
        seq![s]
    }
}

/// The value of segment `i`, a missing segment counting as zero.
pub open spec fn seg_at(segs: Seq<Seq<char>>, i: int) -> int {
    if 0 <= i < segs.len() {
        seg_val(segs[i])
    } else {
        0
    }
}

/// The longer operand's segment count.
pub open spec fn max_segs(a: Seq<Seq<char>>, b: Seq<Seq<char>>) -> int {
    if a.len() >= b.len() {
        a.len() as int
    } else {
        b.len() as int
    }
}

/// Segment-by-segment comparison from position `i` on: `1`, `-1` or `0`
/// after the first position where the values differ, or `0` when none does.
pub open spec fn cmp_from(a: Seq<Seq<char>>, b: Seq<Seq<char>>, i: int) -> int
    decreases max_segs(a, b) - i,
{
    if i >= max_segs(a, b) {
        0
    } else if seg_at(a, i) > seg_at(b, i) {
        1
    } else if seg_at(a, i) < seg_at(b, i) {
        -1
    } else {
        cmp_from(a, b, i + 1)
    }
}

/// The comparator's result on two version strings: `1` when the first
/// denotes the strictly newer version, `-1` when the strictly older, `0`
/// when they denote the same version.
pub open spec fn spec_compare(a: Seq<char>, b: Seq<char>) -> int {
    cmp_from(segments(strip_v(a)), segments(strip_v(b)), 0)
}

proof fn lemma_pow10_pos(n: nat)
    ensures
        pow10(n) >= 1,
    decreases n,
{
    if n > 0 {
        lemma_pow10_pos((n - 1) as nat);
    }
}

proof fn lemma_pow10_mono(m: nat, n: nat)
    requires
        m <= n,
    ensures
        pow10(m) <= pow10(n),
    decreases n,
{
    if m < n {
        lemma_pow10_mono(m, (n - 1) as nat);
        lemma_pow10_pos((n - 1) as nat);
    }
}

proof fn lemma_digits_val_bounds(s: Seq<char>)
    requires
        digits_only(s),
    ensures
        0 <= digits_val(s) < pow10(s.len() as nat),
    decreases s.len(),
{
    if s.len() == 0 {
    } else {
        assert(forall|i: int| 0 <= i < s.len() - 1 ==> s.skip(1)[i] == s[i + 1]);
        lemma_digits_val_bounds(s.skip(1));
        let d = digit_val(s[0]);
        let p = pow10((s.len() - 1) as nat);
        let r = digits_val(s.skip(1));
        lemma_pow10_pos((s.len() - 1) as nat);
        assert(0 <= d <= 9);
        assert(d * p >= 0) by (nonlinear_arith)
            requires
                d >= 0,
                p >= 1,
        ;
        assert(d * p + p <= 10 * p) by (nonlinear_arith)
            requires
                d <= 9,
                p >= 1,
        ;
    }
}

proof fn lemma_digits_val_lower(s: Seq<char>)
    requires
        digits_only(s),
        s.len() > 0,
        s[0] != '0',
    ensures
        digits_val(s) >= pow10((s.len() - 1) as nat),
    decreases s.len(),
{
    assert(forall|i: int| 0 <= i < s.len() - 1 ==> s.skip(1)[i] == s[i + 1]);
    lemma_digits_val_bounds(s.skip(1));
    let d = digit_val(s[0]);
    let p = pow10((s.len() - 1) as nat);
    lemma_pow10_pos((s.len() - 1) as nat);
    assert(d >= 1);
    assert(d * p >= p) by (nonlinear_arith)
        requires
            d >= 1,
            p >= 1,
    ;
}

proof fn lemma_skip_zeros(s: Seq<char>, k: int)
    requires
        digits_only(s),
        0 <= k <= s.len(),
        forall|i: int| 0 <= i < k ==> s[i] == '0',
    ensures
        digits_val(s) == digits_val(s.skip(k)),
    decreases k,
{
    if k > 0 {
        assert(digit_val(s[0]) == 0);
        assert(digits_val(s) == digits_val(s.skip(1)));
        assert(forall|i: int| 0 <= i < s.len() - 1 ==> s.skip(1)[i] == s[i + 1]);
        lemma_skip_zeros(s.skip(1), k - 1);
        assert(s.skip(1).skip(k - 1) =~= s.skip(k));
    } else {
        assert(s.skip(0) =~= s);
    }
}

proof fn lemma_lex_less(a: Seq<char>, b: Seq<char>, i: int)
    requires
        digits_only(a),
        digits_only(b),
        a.len() == b.len(),
        0 <= i < a.len(),
        forall|j: int| 0 <= j < i ==> a[j] == b[j],
        (a[i] as int) < (b[i] as int),
    ensures
        digits_val(a) < digits_val(b),
    decreases i,
{
    assert(forall|j: int| 0 <= j < a.len() - 1 ==> a.skip(1)[j] == a[j + 1]);
    assert(forall|j: int| 0 <= j < b.len() - 1 ==> b.skip(1)[j] == b[j + 1]);
    let p = pow10((a.len() - 1) as nat);
    let da = digit_val(a[0]);
    let db = digit_val(b[0]);
    let ra = digits_val(a.skip(1));
    let rb = digits_val(b.skip(1));
    lemma_digits_val_bounds(a.skip(1));
    lemma_digits_val_bounds(b.skip(1));
    lemma_pow10_pos((a.len() - 1) as nat);
    if i == 0 {
        assert(da + 1 <= db);
        assert(da * p + ra < db * p + rb) by (nonlinear_arith)
            requires
                da + 1 <= db,
                p >= 1,
                0 <= ra < p,
                0 <= rb,
        ;
    } else {
        lemma_lex_less(a.skip(1), b.skip(1), i - 1);
        assert(da == db);
    }
}

/// Index of the first character of `s` that is not `0`, or the length when
/// every character is.
fn first_non_zero(s: &str) -> (r: usize)
    ensures
        r <= s@.len(),
        forall|j: int| 0 <= j < r ==> s@[j] == '0',
        r < s@.len() ==> s@[r as int] != '0',
{
    let n = s.unicode_len();
    let mut i: usize = 0;
    while i < n
        invariant
            i <= n,
            n == s@.len(),
            forall|j: int| 0 <= j < i ==> s@[j] == '0',
        decreases n - i,
    {
        if s.get_char(i) != '0' {
            return i;
        }
        i += 1;
    }
    n
}

/// Whether `s` is a non-empty all-digit string.
fn all_digits(s: &str) -> (r: bool)
    ensures
        r == is_numeric(s@),
{
    let n = s.unicode_len();
    if n == 0 {
        return false;
    }
    let mut i: usize = 0;
    while i < n
        invariant
            i <= n,
            n == s@.len(),
            forall|j: int| 0 <= j < i ==> is_digit(s@[j]),
        decreases n - i,
    {
        let u = s.get_char(i) as u32;
        if u < 48 || u > 57 {
            assert(!is_digit(s@[i as int]));
            return false;
        }
        i += 1;
    }
    true
}

/// Whether a numeric segment denotes zero.
fn numeric_is_zero(s: &str) -> (r: bool)
    requires
        is_numeric(s@),
    ensures
        r == (digits_val(s@) == 0),
{
    let n = s.unicode_len();
    let i = first_non_zero(s);
    if i == n {
        proof {
            lemma_skip_zeros(s@, n as int);
            assert(s@.skip(n as int) =~= Seq::<char>::empty());
        }
        true
    } else {
        proof {
            lemma_skip_zeros(s@, i as int);
            assert(forall|j: int| 0 <= j < s@.len() - i ==> s@.skip(i as int)[j] == s@[i + j]);
            lemma_digits_val_lower(s@.skip(i as int));
            lemma_pow10_pos((s@.len() - i - 1) as nat);
        }
        false
    }
}

/// Compare two numeric segments by their denoted numbers.
fn cmp_numeric(a: &str, b: &str) -> (r: i32)
    requires
        is_numeric(a@),
        is_numeric(b@),
    ensures
        (r == 1 && digits_val(a@) > digits_val(b@)) || (r == 0 && digits_val(a@) == digits_val(
            b@,
        )) || (r == -1 && digits_val(a@) < digits_val(b@)),
{
    let na = a.unicode_len();
    let nb = b.unicode_len();
    let ia = first_non_zero(a);
    let ib = first_non_zero(b);
    proof {
        lemma_skip_zeros(a@, ia as int);
        lemma_skip_zeros(b@, ib as int);
        assert(forall|j: int| 0 <= j < a@.len() - ia ==> a@.skip(ia as int)[j] == a@[ia + j]);
        assert(forall|j: int| 0 <= j < b@.len() - ib ==> b@.skip(ib as int)[j] == b@[ib + j]);
    }
    let la = na - ia;
    let lb = nb - ib;
    if la > lb {
        proof {
            lemma_digits_val_lower(a@.skip(ia as int));
            lemma_digits_val_bounds(b@.skip(ib as int));
            lemma_pow10_mono(lb as nat, (la - 1) as nat);
        }
        return 1;
    }
    if la < lb {
        proof {
            lemma_digits_val_lower(b@.skip(ib as int));
            lemma_digits_val_bounds(a@.skip(ia as int));
            lemma_pow10_mono(la as nat, (lb - 1) as nat);
        }
        return -1;
    }
    let mut i: usize = 0;
    while i < la
        invariant
            i <= la,
            la == lb,
            ia + la == na,
            ib + lb == nb,
            na == a@.len(),
            nb == b@.len(),
            ia <= na,
            ib <= nb,
            is_numeric(a@),
            is_numeric(b@),
            digits_val(a@) == digits_val(a@.skip(ia as int)),
            digits_val(b@) == digits_val(b@.skip(ib as int)),
            forall|j: int| 0 <= j < i ==> #[trigger] a@[ia + j] == b@[ib + j],
        decreases la - i,
    {
        let ca = a.get_char(ia + i) as u32;
        let cb = b.get_char(ib + i) as u32;
        if ca != cb {
            proof {
                let sa = a@.skip(ia as int);
                let sb = b@.skip(ib as int);
                assert(forall|j: int| 0 <= j < sa.len() ==> sa[j] == a@[ia + j]);
                assert(forall|j: int| 0 <= j < sb.len() ==> sb[j] == b@[ib + j]);
                if ca < cb {
                    lemma_lex_less(sa, sb, i as int);
                } else {
                    lemma_lex_less(sb, sa, i as int);
                }
            }
            if ca < cb {
                return -1;
            } else {
                return 1;
            }
        }
        i += 1;
    }
    proof {
        assert(a@.skip(ia as int) =~= b@.skip(ib as int));
    }
    0
}

/// Compare two raw segments by the values they contribute.
fn seg_cmp(a: &str, b: &str) -> (r: i32)
    ensures
        (r == 1 && seg_val(a@) > seg_val(b@)) || (r == 0 && seg_val(a@) == seg_val(b@)) || (r
            == -1 && seg_val(a@) < seg_val(b@)),
{
    let na = all_digits(a);
    let nb = all_digits(b);
    if na && nb {
        let r = cmp_numeric(a, b);
        proof {
            lemma_digits_val_bounds(a@);
            lemma_digits_val_bounds(b@);
        }
        r
    } else if na {
        proof {
            lemma_digits_val_bounds(a@);
        }
        if numeric_is_zero(a) {
            0
        } else {
            1
        }
    } else if nb {
        proof {
            lemma_digits_val_bounds(b@);
        }
        if numeric_is_zero(b) {
            0
        } else {
            -1
        }
    } else {
        0
    }
}

/// `s` with one leading `v` removed, if it has one.
fn strip_leading_v<'a>(s: &'a str) -> (r: &'a str)
    ensures
        r@ == strip_v(s@),
{
    let n = s.unicode_len();
    if n > 0 && s.get_char(0) == 'v' {
        s.substring_char(1, n)
    } else {
        s
    }
}

/// `s` split on `.`, as owned segments.
fn split_segments(s: &str) -> (r: Vec<String>)
    ensures
        r@.len() == segments(s@).len(),
        forall|i: int| 0 <= i < r@.len() ==> r@[i]@ == segments(s@)[i],
    decreases s@.len(),
{
    let n = s.unicode_len();
    match find_first_char(s, '.') {
        Option::None => {
            proof {
                lemma_find_first_props(s@, '.');
            }
            let mut r: Vec<String> = Vec::new();
            r.push(String::from_str(s));
            assert(segments(s@) =~= seq![s@]);
            r
        },
        Option::Some(k) => {
            proof {
                lemma_find_first_props(s@, '.');
            }
            let head = String::from_str(s.substring_char(0, k));
            let rest = s.substring_char(k + 1, n);
            let mut r = split_segments(rest);
            r.insert(0, head);
            proof {
                assert(head@ == s@.take(k as int));
                assert(segments(s@) =~= seq![s@.take(k as int)] + segments(s@.skip(k + 1)));
                assert(forall|i: int| 0 <= i < r@.len() - 1 ==> #[trigger] (seq![
                    s@.take(k as int),
                ] + segments(s@.skip(k + 1)))[i + 1] == segments(s@.skip(k + 1))[i]);
            }
            r
        },
    }
}

/// Compare two version strings: `1` when the first is strictly newer, `-1`
/// when strictly older, `0` when they denote the same version. An optional
/// leading `v` is ignored on each side, segments are compared numerically
/// up to the longer operand's length, and a non-numeric or missing segment
/// counts as zero.
pub fn compare_versions(version_a: &str, version_b: &str) -> (r: i32)
    ensures
        r as int == spec_compare(version_a@, version_b@),
{
    let a = strip_leading_v(version_a);
    let b = strip_leading_v(version_b);
    let sa = split_segments(a);
    let sb = split_segments(b);
    let ghost ga = segments(a@);
    let ghost gb = segments(b@);
    let m = if sa.len() >= sb.len() {
        sa.len()
    } else {
        sb.len()
    };
    let empty = "";
    proof {
        reveal_strlit("");
        assert(empty@.len() == 0);
    }
    let mut i: usize = 0;
    while i < m
        invariant
            i <= m,
            m == max_segs(ga, gb),
            ga == segments(strip_v(version_a@)),
            gb == segments(strip_v(version_b@)),
            sa@.len() == ga.len(),
            sb@.len() == gb.len(),
            forall|j: int| 0 <= j < ga.len() ==> sa@[j]@ == ga[j],
            forall|j: int| 0 <= j < gb.len() ==> sb@[j]@ == gb[j],
            empty@.len() == 0,
            cmp_from(ga, gb, 0) == cmp_from(ga, gb, i as int),
        decreases m - i,
    {
        let ea: &str = if i < sa.len() {
            sa[i].as_str()
        } else {
            empty
        };
        let eb: &str = if i < sb.len() {
            sb[i].as_str()
        } else {
            empty
        };
        proof {
            assert(seg_val(ea@) == seg_at(ga, i as int));
            assert(seg_val(eb@) == seg_at(gb, i as int));
        }
        let c = seg_cmp(ea, eb);
        if c != 0 {
            proof {
                assert(cmp_from(ga, gb, i as int) == c as int);
            }
            return c;
        }
        i += 1;
    }
    0
}

} // verus!
