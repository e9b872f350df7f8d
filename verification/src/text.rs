//! Character-level utilities shared across the library: string equality,
//! path-component extraction, whitespace trimming, line splitting and
//! decimal parsing, each specified over `Seq<char>` views.

use vstd::prelude::*;

verus! {

/// A character that separates path components inside a stored file
/// reference.  Both separators occur in imported data, so both are honoured.
pub open spec fn is_sep(c: char) -> bool {
    c == '/' || c == '\\'
}

/// The final path component of `s`: everything after the last separator,
/// or all of `s` when it holds no separator.
pub open spec fn normalized(s: Seq<char>) -> Seq<char>
    decreases s.len(),
{
    if s.len() == 0 {
        s
    } else if is_sep(s.last()) {
        Seq::empty()
    } else {
        normalized(s.drop_last()).push(s.last())
    }
}

/// A normalized value holds no separator.
pub proof fn lemma_normalized_no_sep(s: Seq<char>)
    ensures
        forall|i: int| 0 <= i < normalized(s).len() ==> !is_sep(#[trigger] normalized(s)[i]),
    decreases s.len(),
{
    if s.len() == 0 {
    } else if is_sep(s.last()) {
    } else {
        lemma_normalized_no_sep(s.drop_last());
        let r = normalized(s);
        assert forall|i: int| 0 <= i < r.len() implies !is_sep(r[i]) by {
            if i < r.len() - 1 {
                assert(r[i] == normalized(s.drop_last())[i]);
            } else {
                assert(r[i] == s.last());
            }
        }
    }
}

/// A value without separators normalizes to itself.
pub proof fn lemma_normalized_of_clean(s: Seq<char>)
    requires
        forall|i: int| 0 <= i < s.len() ==> !is_sep(#[trigger] s[i]),
    ensures
        normalized(s) == s,
    decreases s.len(),
{
    if s.len() == 0 {
    } else {
        lemma_normalized_of_clean(s.drop_last());
        assert(normalized(s.drop_last()).push(s.last()) =~= s);
    }
}

/// Normalization is idempotent: stripping a stored file reference twice
/// yields the same value as stripping it once.
pub proof fn lemma_normalized_idempotent(s: Seq<char>)
    ensures
        normalized(normalized(s)) == normalized(s),
{
    lemma_normalized_no_sep(s);
    lemma_normalized_of_clean(normalized(s));
}

/// If every character from `cut` on is a non-separator and the character
/// just before `cut` (when there is one) is a separator, then the final
/// component is exactly the suffix starting at `cut`.
pub proof fn lemma_normalized_at_cut(s: Seq<char>, cut: int)
    requires
        0 <= cut <= s.len(),
        forall|j: int| cut <= j < s.len() ==> !is_sep(#[trigger] s[j]),
        cut == 0 || is_sep(s[cut - 1]),
    ensures
        normalized(s) == s.skip(cut),
    decreases s.len(),
{
    if s.len() == 0 {
        assert(normalized(s) =~= s.skip(0));
    } else if cut < s.len() {
        lemma_normalized_at_cut(s.drop_last(), cut);
        assert(normalized(s.drop_last()).push(s.last()) =~= s.skip(cut));
    } else {
        assert(normalized(s) =~= s.skip(cut));
    }
}

/// Whether two string slices hold the same characters.
pub fn str_eq(a: &str, b: &str) -> (r: bool)
    ensures
        r == (a@ == b@),
{
    let an = a.unicode_len();
    let bn = b.unicode_len();
    if an != bn {
        assert(a@ != b@) by {
            assert(a@.len() != b@.len());
        }
        return false;
    }
    let mut i: usize = 0;
    while i < an
        invariant
            an == a@.len(),
            an == b@.len(),
            0 <= i <= an,
            forall|j: int| 0 <= j < i ==> a@[j] == b@[j],
        decreases an - i,
    {
        if a.get_char(i) != b.get_char(i) {
            return false;
        }
        i += 1;
    }
    proof {
        assert(a@ =~= b@);
    }
    true
}

/// The final path component of `s` as a fresh string.
pub fn last_component(s: &str) -> (r: String)
    ensures
        r@ == normalized(s@),
{
    let n = s.unicode_len();
    let mut cut: usize = n;
    while cut > 0
        invariant
            n == s@.len(),
            0 <= cut <= n,
            forall|j: int| cut <= j < n ==> !is_sep(#[trigger] s@[j]),
        ensures
            0 <= cut <= n,
            forall|j: int| cut <= j < n ==> !is_sep(#[trigger] s@[j]),
            cut == 0 || is_sep(s@[cut as int - 1]),
        decreases cut,
    {
        if is_sep_char(s.get_char(cut - 1)) {
            break;
        }
        cut -= 1;
    }
    proof {
        lemma_normalized_at_cut(s@, cut as int);
    }
    let tail = s.substring_char(cut, n);
    proof {
        assert(tail@ =~= s@.skip(cut as int));
    }
    tail.to_owned()
}

/// Whether `c` separates path components.
pub fn is_sep_char(c: char) -> (r: bool)
    ensures
        r == is_sep(c),
{
    c == '/' || c == '\\'
}

/// Whitespace stripped from the ends of configuration lines.
pub open spec fn is_space(c: char) -> bool {
    c == ' ' || c == '\t' || c == '\r' || c == '\n'
}

/// `s` without its leading whitespace.
pub open spec fn trim_front(s: Seq<char>) -> Seq<char>
    decreases s.len(),
{
    if s.len() > 0 && is_space(s.first()) {
        trim_front(s.drop_first())
    } else {
        s
    }
}

/// `s` without its trailing whitespace.
pub open spec fn trim_back(s: Seq<char>) -> Seq<char>
    decreases s.len(),
{
    if s.len() > 0 && is_space(s.last()) {
        trim_back(s.drop_last())
    } else {
        s
    }
}

/// `s` without leading and trailing whitespace.
pub open spec fn trimmed(s: Seq<char>) -> Seq<char> {
    trim_back(trim_front(s))
}

proof fn lemma_trim_front_at(s: Seq<char>, a: int)
    requires
        0 <= a <= s.len(),
        forall|j: int| 0 <= j < a ==> is_space(#[trigger] s[j]),
        a == s.len() || !is_space(s[a]),
    ensures
        trim_front(s) == s.skip(a),
    decreases s.len(),
{
    if a == 0 {
        assert(trim_front(s) =~= s.skip(0));
    } else {
        lemma_trim_front_at(s.drop_first(), a - 1);
        assert(s.drop_first().skip(a - 1) =~= s.skip(a));
    }
}

proof fn lemma_trim_back_at(s: Seq<char>, b: int)
    requires
        0 <= b <= s.len(),
        forall|j: int| b <= j < s.len() ==> is_space(#[trigger] s[j]),
        b == 0 || !is_space(s[b - 1]),
    ensures
        trim_back(s) == s.take(b),
    decreases s.len(),
{
    if b == s.len() {
        assert(trim_back(s) =~= s.take(b));
    } else {
        lemma_trim_back_at(s.drop_last(), b);
        assert(s.drop_last().take(b) =~= s.take(b));
    }
}

/// `s` with surrounding whitespace stripped, as a fresh string.
pub fn trim_str(s: &str) -> (r: String)
    ensures
        r@ == trimmed(s@),
{
    let n = s.unicode_len();
    let mut a: usize = 0;
    while a < n
        invariant
            n == s@.len(),
            0 <= a <= n,
            forall|j: int| 0 <= j < a ==> is_space(#[trigger] s@[j]),
        ensures
            0 <= a <= n,
            forall|j: int| 0 <= j < a ==> is_space(#[trigger] s@[j]),
            a == n || !is_space(s@[a as int]),
        decreases n - a,
    {
        if !is_space_char(s.get_char(a)) {
            break;
        }
        a += 1;
    }
    proof {
        lemma_trim_front_at(s@, a as int);
    }
    if a == n {
        proof {
            assert(trim_back(s@.skip(n as int)) =~= s@.skip(n as int));
        }
        return String::new();
    }
    let mut b: usize = n;
    while b > a + 1
        invariant
            n == s@.len(),
            0 <= a < b <= n,
            !is_space(s@[a as int]),
            forall|j: int| b <= j < n ==> is_space(#[trigger] s@[j]),
        ensures
            a < b <= n,
            forall|j: int| b <= j < n ==> is_space(#[trigger] s@[j]),
            !is_space(s@[b - 1]),
        decreases b,
    {
        if !is_space_char(s.get_char(b - 1)) {
            break;
        }
        b -= 1;
    }
    proof {
        lemma_trim_back_at(s@.skip(a as int), b - a);
        assert(s@.skip(a as int).take(b - a) =~= s@.subrange(a as int, b as int));
    }
    let mid = s.substring_char(a, b);
    mid.to_owned()
}

/// Whether `c` is configuration-line whitespace.
pub fn is_space_char(c: char) -> (r: bool)
    ensures
        r == is_space(c),
{
    c == ' ' || c == '\t' || c == '\r' || c == '\n'
}

/// The position of the first line break in `s`, or `s.len()` when there is
/// none.
pub open spec fn first_nl(s: Seq<char>) -> nat
    decreases s.len(),
{
    if s.len() == 0 {
        0
    } else if s.first() == '\n' {
        0
    } else {
        (1 + first_nl(s.drop_first())) as nat
    }
}

/// `first_nl` is characterised by its first-occurrence property.
pub proof fn lemma_first_nl_at(s: Seq<char>, m: int)
    requires
        0 <= m <= s.len(),
        forall|j: int| 0 <= j < m ==> #[trigger] s[j] != '\n',
        m == s.len() || s[m] == '\n',
    ensures
        first_nl(s) == m,
    decreases s.len(),
{
    if m > 0 {
        lemma_first_nl_at(s.drop_first(), m - 1);
    }
}

/// The lines of `s`, split at `'\n'`, the break itself not included.
pub open spec fn split_lines(s: Seq<char>) -> Seq<Seq<char>>
    decreases s.len(),
{
    if s.len() == 0 {
        Seq::empty()
    } else {
        let n = first_nl(s);
        if n >= s.len() {
            seq![s]
        } else {
            seq![s.take(n as int)] + split_lines(s.skip(n as int + 1))
        }
    }
}

/// Whether `c` is a decimal digit.
pub open spec fn is_digit(c: char) -> bool {
    48 <= c as u32 <= 57
}

/// The value of a decimal digit.
pub open spec fn digit_val(c: char) -> int {
    c as u32 - 48
}

/// Whether every character of `s` is a decimal digit.
pub open spec fn all_digits(s: Seq<char>) -> bool {
    forall|i: int| 0 <= i < s.len() ==> is_digit(#[trigger] s[i])
}

/// The value of `s` read as a decimal numeral.
pub open spec fn dec_val(s: Seq<char>) -> int
    decreases s.len(),
{
    if s.len() == 0 {
        0
    } else {
        dec_val(s.drop_last()) * 10 + digit_val(s.last())
    }
}

proof fn lemma_dec_val_nonneg(s: Seq<char>)
    requires
        all_digits(s),
    ensures
        dec_val(s) >= 0,
    decreases s.len(),
{
    if s.len() > 0 {
        lemma_dec_val_nonneg(s.drop_last());
    }
}

proof fn lemma_dec_val_prefix(s: Seq<char>, i: int)
    requires
        all_digits(s),
        0 <= i <= s.len(),
    ensures
        dec_val(s) >= dec_val(s.take(i)),
    decreases s.len(),
{
    if i == s.len() {
        assert(s.take(i) =~= s);
    } else {
        lemma_dec_val_prefix(s.drop_last(), i);
        assert(s.drop_last().take(i) =~= s.take(i));
        lemma_dec_val_nonneg(s.drop_last());
    }
}

/// The numeral part of a decimal string: an optional leading `'+'` sign is
/// skipped, as the standard integer parser does.
pub open spec fn dec_body(s: Seq<char>) -> Seq<char> {
    if s.len() > 0 && s[0] == '+' {
        s.drop_first()
    } else {
        s
    }
}

/// Whether `s` reads as a decimal `u32`: a non-empty all-digit numeral
/// (after the optional sign) whose value fits.
pub open spec fn parses_as_u32(s: Seq<char>) -> bool {
    let b = dec_body(s);
    b.len() > 0 && all_digits(b) && dec_val(b) <= u32::MAX
}

/// Reads `s` as a decimal `u32`, accepting exactly the strings the standard
/// parser accepts, except that a leading `'-'` is never accepted.
pub fn parse_u32(s: &str) -> (r: Option<u32>)
    ensures
        match r {
            Some(v) => parses_as_u32(s@) && v as int == dec_val(dec_body(s@)),
            None => !parses_as_u32(s@),
        },
{
    let n = s.unicode_len();
    let start: usize = if n > 0 && s.get_char(0) == '+' {
        1
    } else {
        0
    };
    let ghost body = dec_body(s@);
    proof {
        assert(body =~= s@.skip(start as int));
    }
    if start == n {
        return None;
    }
    let mut val: u64 = 0;
    let mut i: usize = start;
    while i < n
        invariant
            n == s@.len(),
            body == dec_body(s@),
            body == s@.skip(start as int),
            start <= i <= n,
            forall|j: int| start <= j < i ==> is_digit(#[trigger] s@[j]),
            val <= u32::MAX,
            val as int == dec_val(body.take(i - start)),
        decreases n - i,
    {
        let c = s.get_char(i);
        let u = c as u32;
        if !(48 <= u && u <= 57) {
            proof {
                assert(body[i - start] == s@[i as int]);
                assert(!all_digits(body)) by {
                    assert(0 <= i - start < body.len() && !is_digit(body[i - start]));
                }
            }
            return None;
        }
        let d: u64 = (u - 48) as u64;
        let next: u64 = val * 10 + d;
        proof {
            assert(body.take(i - start + 1).drop_last() =~= body.take(i - start));
            assert(body.take(i - start + 1).last() == s@[i as int]);
        }
        if next > u32::MAX as u64 {
            proof {
                assert(body.take(i - start + 1).last() == s@[i as int]);
                assert(dec_val(body.take(i - start + 1)) == val * 10 + d);
                if all_digits(body) {
                    lemma_dec_val_prefix(body, i - start + 1);
                    assert(dec_val(body) > u32::MAX);
                }
            }
            return None;
        }
        val = next;
        i += 1;
    }
    proof {
        assert(body.take(n - start) =~= body);
        assert(forall|j: int|
            0 <= j < body.len() ==> is_digit(#[trigger] body[j]) == is_digit(s@[start + j]));
    }
    Some(val as u32)
}

} // verus!
