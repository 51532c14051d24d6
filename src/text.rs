//! Character-level helpers shared by the tokenizer: whitespace, trimming,
//! quote counting and the split of an attribute token at its first `=`.
use vstd::prelude::*;

verus! {

/// The Unicode `White_Space` property, which is what `char::is_whitespace` tests.
pub open spec fn is_ws(c: char) -> bool {
    ||| ('\u{9}' <= c && c <= '\u{d}')
    ||| c == ' '
    ||| c == '\u{85}'
    ||| c == '\u{a0}'
    ||| c == '\u{1680}'
    ||| ('\u{2000}' <= c && c <= '\u{200a}')
    ||| c == '\u{2028}'
    ||| c == '\u{2029}'
    ||| c == '\u{202f}'
    ||| c == '\u{205f}'
    ||| c == '\u{3000}'
}

/// Index of the first character at or after `i` that is not whitespace
/// (or `s.len()` when there is none).
pub open spec fn skip_ws_from(s: Seq<char>, i: int) -> int
    decreases s.len() - i,
{
    if 0 <= i < s.len() && is_ws(s[i]) {
        skip_ws_from(s, i + 1)
    } else {
        i
    }
}

/// Going down from `j`, the end of the text once the whitespace that stands
/// between `lo` and `j` at its tail is dropped.
pub open spec fn back_ws_from(s: Seq<char>, lo: int, j: int) -> int
    decreases j - lo,
{
    if lo < j && j <= s.len() && is_ws(s[j - 1]) {
        back_ws_from(s, lo, j - 1)
    } else {
        j
    }
}

/// `s` without its leading and trailing whitespace.
pub open spec fn trim(s: Seq<char>) -> Seq<char> {
    let a = skip_ws_from(s, 0);
    s.subrange(a, back_ws_from(s, a, s.len() as int))
}

/// Number of double-quote characters in `s`.
pub open spec fn count_quotes(s: Seq<char>) -> nat
    decreases s.len(),
{
    if s.len() == 0 {
        0
    } else {
        count_quotes(s.drop_last()) + if s.last() == '"' {
            1nat
        } else {
            0nat
        }
    }
}

/// Position of the first `=` in `s`, if any.
pub open spec fn first_eq_from(s: Seq<char>, i: int) -> int
    decreases s.len() - i,
{
    if 0 <= i < s.len() && s[i] != '=' {
        first_eq_from(s, i + 1)
    } else {
        i
    }
}

/// The attribute name: what stands before the first `=`, trimmed.
pub open spec fn attr_name_of(s: Seq<char>) -> Seq<char> {
    trim(s.subrange(0, first_eq_from(s, 0)))
}

/// The raw attribute value: everything after the first `=`, or nothing.
pub open spec fn raw_value_of(s: Seq<char>) -> Seq<char> {
    let k = first_eq_from(s, 0);
    if k < s.len() {
        s.subrange(k + 1, s.len() as int)
    } else {
        Seq::empty()
    }
}

/// `v` with one leading and then one trailing double quote removed, where present.
pub open spec fn unquote(v: Seq<char>) -> Seq<char> {
    let v1 = if v.len() > 0 && v[0] == '"' {
        v.drop_first()
    } else {
        v
    };
    if v1.len() > 0 && v1.last() == '"' {
        v1.drop_last()
    } else {
        v1
    }
}

proof fn lemma_skip_ws_bounds(s: Seq<char>, i: int)
    requires
        0 <= i <= s.len(),
    ensures
        i <= skip_ws_from(s, i) <= s.len(),
        skip_ws_from(s, i) < s.len() ==> !is_ws(s[skip_ws_from(s, i)]),
    decreases s.len() - i,
{
    if i < s.len() && is_ws(s[i]) {
        lemma_skip_ws_bounds(s, i + 1);
    }
}

proof fn lemma_back_ws_bounds(s: Seq<char>, lo: int, j: int)
    requires
        0 <= lo <= j <= s.len(),
    ensures
        lo <= back_ws_from(s, lo, j) <= j,
        lo < back_ws_from(s, lo, j) ==> !is_ws(s[back_ws_from(s, lo, j) - 1]),
    decreases j - lo,
{
    if lo < j && is_ws(s[j - 1]) {
        lemma_back_ws_bounds(s, lo, j - 1);
    }
}

/// Text without whitespace at either end, and not empty.
pub open spec fn is_trimmed_text(t: Seq<char>) -> bool {
    t.len() > 0 && !is_ws(t[0]) && !is_ws(t.last())
}

/// What `trim` leaves, when anything, begins and ends with a character
/// that is not whitespace.
pub proof fn lemma_trim_ends(s: Seq<char>)
    ensures
        trim(s).len() > 0 ==> is_trimmed_text(trim(s)),
{
    lemma_skip_ws_bounds(s, 0);
    let a = skip_ws_from(s, 0);
    lemma_back_ws_bounds(s, a, s.len() as int);
}

/// Text that is already trimmed trims to itself.
pub proof fn lemma_trim_trimmed(b: Seq<char>)
    requires
        is_trimmed_text(b),
    ensures
        trim(b) == b,
{
    assert(skip_ws_from(b, 0) == 0);
    assert(back_ws_from(b, 0, b.len() as int) == b.len());
    assert(b.subrange(0, b.len() as int) =~= b);
}

/// Quotes in two pieces add up.
pub proof fn lemma_count_quotes_concat(a: Seq<char>, b: Seq<char>)
    ensures
        count_quotes(a + b) == count_quotes(a) + count_quotes(b),
    decreases b.len(),
{
    if b.len() == 0 {
        assert(a + b =~= a);
    } else {
        assert((a + b).drop_last() =~= a + b.drop_last());
        lemma_count_quotes_concat(a, b.drop_last());
    }
}

/// Text without a quote counts none.
pub proof fn lemma_count_quotes_none(a: Seq<char>)
    requires
        forall|i: int| 0 <= i < a.len() ==> #[trigger] a[i] != '"',
    ensures
        count_quotes(a) == 0,
    decreases a.len(),
{
    if a.len() > 0 {
        lemma_count_quotes_none(a.drop_last());
    }
}

proof fn lemma_skip_ws_upto(s: Seq<char>, i: int, m: int)
    requires
        0 <= i <= m < s.len(),
        !is_ws(s[m]),
    ensures
        skip_ws_from(s, i) <= m,
    decreases m - i,
{
    if i < m && is_ws(s[i]) {
        lemma_skip_ws_upto(s, i + 1, m);
    }
}

proof fn lemma_back_ws_past(s: Seq<char>, lo: int, j: int, m: int)
    requires
        0 <= lo <= m < j <= s.len(),
        !is_ws(s[m]),
    ensures
        back_ws_from(s, lo, j) > m,
    decreases j - lo,
{
    if j - 1 > m && is_ws(s[j - 1]) {
        lemma_back_ws_past(s, lo, j - 1, m);
    }
}

/// Text that holds a character other than whitespace does not trim to nothing.
pub proof fn lemma_trim_nonempty(s: Seq<char>, m: int)
    requires
        0 <= m < s.len(),
        !is_ws(s[m]),
    ensures
        trim(s).len() > 0,
{
    lemma_skip_ws_upto(s, 0, m);
    lemma_skip_ws_bounds(s, 0);
    let a = skip_ws_from(s, 0);
    lemma_back_ws_past(s, a, s.len() as int, m);
    lemma_back_ws_bounds(s, a, s.len() as int);
}

/// A word with no whitespace, after one space, trims to itself.
pub proof fn lemma_trim_after_space(k: Seq<char>)
    requires
        k.len() > 0,
        forall|i: int| 0 <= i < k.len() ==> !is_ws(#[trigger] k[i]),
    ensures
        trim(seq![' '] + k) == k,
{
    let s = seq![' '] + k;
    assert(s[1] == k[0]);
    assert(skip_ws_from(s, 1) == 1);
    assert(skip_ws_from(s, 0) == 1);
    assert(s[s.len() - 1] == k[k.len() - 1]);
    assert(back_ws_from(s, 1, s.len() as int) == s.len());
    assert(s.subrange(1, s.len() as int) =~= k);
}

/// The first `=` from `i` on is at `m` when none stands before it.
pub proof fn lemma_first_eq_at(s: Seq<char>, i: int, m: int)
    requires
        0 <= i <= m < s.len(),
        s[m] == '=',
        forall|j: int| i <= j < m ==> #[trigger] s[j] != '=',
    ensures
        first_eq_from(s, i) == m,
    decreases m - i,
{
    if i < m {
        lemma_first_eq_at(s, i + 1, m);
    }
}

/// Whether `c` is whitespace in the sense of the Unicode `White_Space` property.
pub fn is_whitespace(c: char) -> (r: bool)
    ensures
        r == is_ws(c),
{
    ('\u{9}' <= c && c <= '\u{d}') || c == ' ' || c == '\u{85}' || c == '\u{a0}' || c
        == '\u{1680}' || ('\u{2000}' <= c && c <= '\u{200a}') || c == '\u{2028}' || c
        == '\u{2029}' || c == '\u{202f}' || c == '\u{205f}' || c == '\u{3000}'
}

/// Copy of `s[from..to]`.
pub fn copy_range<T: Copy>(s: &Vec<T>, from: usize, to: usize) -> (r: Vec<T>)
    requires
        from <= to <= s@.len(),
    ensures
        r@ == s@.subrange(from as int, to as int),
{
    let mut r: Vec<T> = Vec::new();
    let mut i: usize = from;
    while i < to
        invariant
            from <= i <= to <= s@.len(),
            r@ == s@.subrange(from as int, i as int),
        decreases to - i,
    {
        r.push(s[i]);
        i = i + 1;
    }
    r
}

/// The characters of `s` without leading and trailing whitespace.
pub fn trimmed(s: &Vec<char>) -> (r: Vec<char>)
    ensures
        r@ == trim(s@),
{
    let mut a: usize = 0;
    while a < s.len() && is_whitespace(s[a])
        invariant
            a <= s@.len(),
            skip_ws_from(s@, a as int) == skip_ws_from(s@, 0),
        decreases s@.len() - a,
    {
        a = a + 1;
    }
    let mut b: usize = s.len();
    while b > a && is_whitespace(s[b - 1])
        invariant
            a <= b <= s@.len(),
            back_ws_from(s@, a as int, b as int) == back_ws_from(s@, a as int, s@.len() as int),
        decreases b - a,
    {
        b = b - 1;
    }
    copy_range(s, a, b)
}

/// Number of double quotes in `s`.
pub fn quote_count(s: &Vec<char>) -> (r: usize)
    ensures
        r == count_quotes(s@),
{
    let mut n: usize = 0;
    let mut i: usize = 0;
    while i < s.len()
        invariant
            i <= s@.len(),
            n == count_quotes(s@.subrange(0, i as int)),
            n <= i,
        decreases s@.len() - i,
    {
        assert(s@.subrange(0, i as int + 1).drop_last() =~= s@.subrange(0, i as int));
        if s[i] == '"' {
            n = n + 1;
        }
        i = i + 1;
    }
    assert(s@.subrange(0, s@.len() as int) =~= s@);
    n
}

/// Splits an attribute token into its name and its value, as `attr_name_of`
/// and `unquote(raw_value_of(..))` describe.
pub fn split_attribute(s: &Vec<char>) -> (r: (Vec<char>, Vec<char>))
    ensures
        r.0@ == attr_name_of(s@),
        r.1@ == unquote(raw_value_of(s@)),
{
    let mut k: usize = 0;
    while k < s.len() && s[k] != '='
        invariant
            k <= s@.len(),
            first_eq_from(s@, k as int) == first_eq_from(s@, 0),
        decreases s@.len() - k,
    {
        k = k + 1;
    }
    let head = copy_range(s, 0, k);
    let name = trimmed(&head);
    let mut from: usize = if k < s.len() {
        k + 1
    } else {
        s.len()
    };
    let mut to: usize = s.len();
    if from < to && s[from] == '"' {
        from = from + 1;
    }
    if from < to && s[to - 1] == '"' {
        to = to - 1;
    }
    let value = copy_range(s, from, to);
    proof {
        let raw = raw_value_of(s@);
        let v1 = if raw.len() > 0 && raw[0] == '"' {
            raw.drop_first()
        } else {
            raw
        };
        assert(v1 =~= s@.subrange(
            if k < s@.len() { k + 1 } else { s@.len() as int } + if raw.len() > 0 && raw[0] == '"' { 1int } else { 0int },
            s@.len() as int,
        ));
        assert(value@ =~= unquote(raw));
    }
    (name, value)
}

/// Relies on `String`'s `FromIterator<&char>`: the string holds the
/// characters in their order.
#[verifier::external_body]
pub(crate) fn string_of(chars: &Vec<char>) -> (r: String)
    ensures
        r@ == chars@,
{
    chars.iter().collect()
}

} // verus!
