//! Character-level text operations.
//!
//! Every operation is specified over the sequence of characters of its
//! arguments: a text is a `Seq<char>`, a position is an index into it.

use vstd::prelude::*;
use vstd::string::*;

verus! {

/// Whether `c` has the Unicode property `White_Space`.
pub open spec fn is_whitespace(c: char) -> bool {
    ||| '\u{9}' <= c <= '\u{D}'
    ||| c == ' '
    ||| c == '\u{85}'
    ||| c == '\u{A0}'
    ||| c == '\u{1680}'
    ||| '\u{2000}' <= c <= '\u{200A}'
    ||| c == '\u{2028}'
    ||| c == '\u{2029}'
    ||| c == '\u{202F}'
    ||| c == '\u{205F}'
    ||| c == '\u{3000}'
}

/// The first position at or after `i` that holds no whitespace, or the length of `s`.
pub open spec fn skip_whitespace(s: Seq<char>, i: int) -> int
    decreases s.len() - i,
{
    if 0 <= i < s.len() && is_whitespace(s[i]) {
        skip_whitespace(s, i + 1)
    } else {
        i
    }
}

/// The end of the last run of non-whitespace that ends at or before `j`, but not below `low`.
pub open spec fn skip_whitespace_back(s: Seq<char>, low: int, j: int) -> int
    decreases j,
{
    if 0 <= low < j <= s.len() && is_whitespace(s[j - 1]) {
        skip_whitespace_back(s, low, j - 1)
    } else {
        j
    }
}

/// `s` without its leading and trailing whitespace.
pub open spec fn trimmed(s: Seq<char>) -> Seq<char> {
    let a = skip_whitespace(s, 0);
    let b = skip_whitespace_back(s, a, s.len() as int);
    s.subrange(a, b)
}

/// Whether `pat` stands in `s` at position `i`.
pub open spec fn occurs_at(s: Seq<char>, pat: Seq<char>, i: int) -> bool {
    &&& 0 <= i
    &&& i + pat.len() <= s.len()
    &&& s.subrange(i, i + pat.len()) == pat
}

/// The first position at or after `from` at which `pat` stands in `s`.
pub open spec fn next_occurrence(s: Seq<char>, pat: Seq<char>, from: int) -> Option<int>
    decreases s.len() - from,
{
    if from < 0 || from + pat.len() > s.len() {
        None
    } else if occurs_at(s, pat, from) {
        Some(from)
    } else if from < s.len() {
        next_occurrence(s, pat, from + 1)
    } else {
        None
    }
}

/// Whether `s` begins with `pat`.
pub open spec fn has_prefix(s: Seq<char>, pat: Seq<char>) -> bool {
    occurs_at(s, pat, 0)
}

/// Whether `s` ends with `pat`.
pub open spec fn has_suffix(s: Seq<char>, pat: Seq<char>) -> bool {
    occurs_at(s, pat, s.len() - pat.len())
}

/// Whether `pat` stands anywhere in `s`.
pub open spec fn has_infix(s: Seq<char>, pat: Seq<char>) -> bool {
    next_occurrence(s, pat, 0) is Some
}

/// The pieces of `s` from position `from` on that lie between the successive,
/// non-overlapping occurrences of `pat`, found from left to right.
pub open spec fn split_from(s: Seq<char>, pat: Seq<char>, from: int) -> Seq<Seq<char>>
    decreases s.len() - from,
{
    match next_occurrence(s, pat, from) {
        Some(i) => if from <= i && i + pat.len() <= s.len() && pat.len() > 0 {
            seq![s.subrange(from, i)] + split_from(s, pat, i + pat.len())
        } else {
            seq![s.subrange(from, s.len() as int)]
        },
        None => seq![s.subrange(from, s.len() as int)],
    }
}

/// The pieces of `s` between the occurrences of the separator `pat`.
pub open spec fn split(s: Seq<char>, pat: Seq<char>) -> Seq<Seq<char>> {
    split_from(s, pat, 0)
}

/// `s` cut at the first occurrence of `pat`: what stands before it, and what
/// stands after it if there is an occurrence.
pub open spec fn split_first(s: Seq<char>, pat: Seq<char>) -> (Seq<char>, Option<Seq<char>>) {
    match next_occurrence(s, pat, 0) {
        Some(i) => (s.subrange(0, i), Some(s.subrange(i + pat.len(), s.len() as int))),
        None => (s, None),
    }
}

/// `s` from position `from` on, with every occurrence of `pat` replaced by `with`.
pub open spec fn replace_from(s: Seq<char>, pat: Seq<char>, with: Seq<char>, from: int) -> Seq<
    char,
>
    decreases s.len() - from,
{
    match next_occurrence(s, pat, from) {
        Some(i) => if from <= i && i + pat.len() <= s.len() && pat.len() > 0 {
            s.subrange(from, i) + with + replace_from(s, pat, with, i + pat.len())
        } else {
            s.subrange(from, s.len() as int)
        },
        None => s.subrange(from, s.len() as int),
    }
}

/// `s` with every occurrence of `pat` replaced by `with`.
pub open spec fn replaced(s: Seq<char>, pat: Seq<char>, with: Seq<char>) -> Seq<char> {
    replace_from(s, pat, with, 0)
}

/// `s` without the prefix `pat`, if it begins with it.
pub open spec fn without_prefix(s: Seq<char>, pat: Seq<char>) -> Seq<char> {
    if has_prefix(s, pat) {
        s.subrange(pat.len() as int, s.len() as int)
    } else {
        s
    }
}

/// Whether every character of `s` lies in the 7-bit range.
pub open spec fn is_plain(s: Seq<char>) -> bool {
    forall|i: int| 0 <= i < s.len() ==> (#[trigger] s[i]) <= '\u{7F}'
}

/// The parts joined, with `sep` between each two neighbours.
pub open spec fn joined(parts: Seq<Seq<char>>, sep: Seq<char>) -> Seq<char>
    decreases parts.len(),
{
    if parts.len() == 0 {
        Seq::empty()
    } else if parts.len() == 1 {
        parts[0]
    } else {
        joined(parts.drop_last(), sep) + sep + parts.last()
    }
}

/// The character of the decimal digit `d`.
pub open spec fn digit(d: int) -> char {
    if d == 0 {
        '0'
    } else if d == 1 {
        '1'
    } else if d == 2 {
        '2'
    } else if d == 3 {
        '3'
    } else if d == 4 {
        '4'
    } else if d == 5 {
        '5'
    } else if d == 6 {
        '6'
    } else if d == 7 {
        '7'
    } else if d == 8 {
        '8'
    } else {
        '9'
    }
}

/// The decimal numeral of `n`, without leading zeros.
pub open spec fn decimal(n: nat) -> Seq<char>
    decreases n,
{
    if n < 10 {
        seq![digit(n as int)]
    } else {
        decimal(n / 10).push(digit((n % 10) as int))
    }
}

/// What `next_occurrence` finds is the first occurrence at or after `from`.
pub proof fn lemma_next_occurrence(s: Seq<char>, pat: Seq<char>, from: int)
    requires
        0 <= from,
    ensures
        match next_occurrence(s, pat, from) {
            Some(i) => {
                &&& from <= i
                &&& occurs_at(s, pat, i)
                &&& forall|j: int| from <= j < i ==> !occurs_at(s, pat, j)
            },
            None => forall|j: int| from <= j ==> !occurs_at(s, pat, j),
        },
    decreases s.len() - from,
{
    if from + pat.len() > s.len() {
    } else if occurs_at(s, pat, from) {
    } else if from < s.len() {
        lemma_next_occurrence(s, pat, from + 1);
    }
}

/// The position `i` moved behind a text of length `by`.
pub open spec fn moved(i: Option<int>, by: int) -> Option<int> {
    match i {
        Some(k) => Some(k + by),
        None => None,
    }
}

/// Behind a text `c`, `pat` stands in `c + x` where it stands in `x`.
pub proof fn lemma_occurs_behind(c: Seq<char>, x: Seq<char>, pat: Seq<char>, i: int)
    requires
        0 <= i,
    ensures
        occurs_at(c + x, pat, c.len() + i) == occurs_at(x, pat, i),
{
    if i + pat.len() <= x.len() {
        assert((c + x).subrange(c.len() + i, c.len() + i + pat.len()) =~= x.subrange(
            i,
            i + pat.len(),
        ));
    }
}

/// Behind a text `c`, the occurrences of `pat` in `c + x` are those in `x`.
pub proof fn lemma_next_behind(c: Seq<char>, x: Seq<char>, pat: Seq<char>, from: int)
    requires
        0 <= from,
    ensures
        next_occurrence(c + x, pat, c.len() + from) == moved(
            next_occurrence(x, pat, from),
            c.len() as int,
        ),
    decreases x.len() - from,
{
    lemma_occurs_behind(c, x, pat, from);
    if from + pat.len() <= x.len() && !occurs_at(x, pat, from) && from < x.len() {
        lemma_next_behind(c, x, pat, from + 1);
    }
}

/// Where `pat` begins nowhere in the first `upto` positions of `s` from
/// `from` on, its next occurrence from `from` is its next from `upto`.
pub proof fn lemma_next_later(s: Seq<char>, pat: Seq<char>, from: int, upto: int)
    requires
        0 <= from <= upto <= s.len(),
        forall|i: int| from <= i < upto ==> !occurs_at(s, pat, i),
    ensures
        next_occurrence(s, pat, from) == next_occurrence(s, pat, upto),
    decreases upto - from,
{
    if from < upto {
        lemma_next_later(s, pat, from + 1, upto);
    }
}

/// Behind a text `c`, the pieces of `c + x` are those of `x`.
pub proof fn lemma_split_behind(c: Seq<char>, x: Seq<char>, pat: Seq<char>, from: int)
    requires
        0 <= from <= x.len(),
    ensures
        split_from(c + x, pat, c.len() + from) == split_from(x, pat, from),
    decreases x.len() - from,
{
    lemma_next_behind(c, x, pat, from);
    lemma_next_occurrence(x, pat, from);
    let s = c + x;
    match next_occurrence(x, pat, from) {
        Some(i) => {
            if from <= i && i + pat.len() <= x.len() && pat.len() > 0 {
                lemma_split_behind(c, x, pat, i + pat.len());
                assert(s.subrange(c.len() + from, c.len() + i) =~= x.subrange(from, i));
            } else {
                assert(s.subrange(c.len() + from, s.len() as int) =~= x.subrange(
                    from,
                    x.len() as int,
                ));
            }
        },
        None => {
            assert(s.subrange(c.len() + from, s.len() as int) =~= x.subrange(
                from,
                x.len() as int,
            ));
        },
    }
}

/// A text `c` in which the separator `pat` begins nowhere goes to the first
/// piece: the pieces of `c + x` are those of `x`, with `c` before the first.
pub proof fn lemma_split_after(c: Seq<char>, x: Seq<char>, pat: Seq<char>)
    requires
        pat.len() > 0,
        forall|i: int| 0 <= i < c.len() ==> !occurs_at(c + x, pat, i),
    ensures
        split(c + x, pat).len() == split(x, pat).len(),
        split(c + x, pat)[0] == c + split(x, pat)[0],
        forall|k: int| 1 <= k < split(x, pat).len() ==> split(c + x, pat)[k] == split(x, pat)[k],
{
    let s = c + x;
    lemma_next_later(s, pat, 0, c.len() as int);
    lemma_next_behind(c, x, pat, 0);
    lemma_next_occurrence(x, pat, 0);
    match next_occurrence(x, pat, 0) {
        Some(i) => {
            lemma_split_behind(c, x, pat, i + pat.len());
            assert(s.subrange(0, c.len() + i) =~= c + x.subrange(0, i));
            let rest = split_from(x, pat, i + pat.len());
            assert(split(x, pat) == seq![x.subrange(0, i)] + rest);
            assert(split(s, pat) == seq![s.subrange(0, c.len() + i)] + rest);
        },
        None => {
            assert(s.subrange(0, s.len() as int) =~= c + x.subrange(0, x.len() as int));
        },
    }
}

/// A text `c` in which `pat` begins nowhere stays before the cut: `c + x`
/// is cut where `x` is.
pub proof fn lemma_split_first_after(c: Seq<char>, x: Seq<char>, pat: Seq<char>)
    requires
        forall|i: int| 0 <= i < c.len() ==> !occurs_at(c + x, pat, i),
    ensures
        split_first(c + x, pat).0 == c + split_first(x, pat).0,
        split_first(c + x, pat).1 == split_first(x, pat).1,
{
    let s = c + x;
    lemma_next_later(s, pat, 0, c.len() as int);
    lemma_next_behind(c, x, pat, 0);
    lemma_next_occurrence(x, pat, 0);
    match next_occurrence(x, pat, 0) {
        Some(i) => {
            assert(s.subrange(0, c.len() + i) =~= c + x.subrange(0, i));
            assert(s.subrange(c.len() + i + pat.len(), s.len() as int) =~= x.subrange(
                i + pat.len(),
                x.len() as int,
            ));
        },
        None => {},
    }
}

/// The characters of `s`, in order.
pub fn chars_of(s: &str) -> (out: Vec<char>)
    ensures
        out@ == s@,
{
    let mut out: Vec<char> = Vec::new();
    for c in it: s.chars()
        invariant
            out@ == it.seq().take(it.index()),
            it.seq() == s@,
    {
        out.push(c);
    }
    out
}

/// Tells whether `c` is whitespace.
pub fn whitespace(c: char) -> (r: bool)
    ensures
        r == is_whitespace(c),
{
    ('\u{9}' <= c && c <= '\u{D}') || c == ' ' || c == '\u{85}' || c == '\u{A0}' || c
        == '\u{1680}' || ('\u{2000}' <= c && c <= '\u{200A}') || c == '\u{2028}' || c
        == '\u{2029}' || c == '\u{202F}' || c == '\u{205F}' || c == '\u{3000}'
}

/// `s` without its leading and trailing whitespace.
pub fn trim<'a>(s: &'a str) -> (r: &'a str)
    ensures
        r@ == trimmed(s@),
{
    let chars = chars_of(s);
    let n = chars.len();
    let mut a: usize = 0;
    while a < n && whitespace(chars[a])
        invariant
            a <= n,
            n == chars@.len(),
            skip_whitespace(chars@, 0) == skip_whitespace(chars@, a as int),
        decreases n - a,
    {
        a += 1;
    }
    let mut b: usize = n;
    while b > a && whitespace(chars[b - 1])
        invariant
            a <= b <= n,
            n == chars@.len(),
            skip_whitespace_back(chars@, a as int, n as int) == skip_whitespace_back(
                chars@,
                a as int,
                b as int,
            ),
        decreases b,
    {
        b -= 1;
    }
    s.substring_char(a, b)
}

/// Tells whether `pat` stands in `text` at position `i`.
fn occurs(text: &Vec<char>, pat: &Vec<char>, i: usize) -> (r: bool)
    requires
        i + pat.len() <= text.len(),
    ensures
        r == occurs_at(text@, pat@, i as int),
{
    let m = pat.len();
    let n = text.len();
    let mut k: usize = 0;
    while k < m
        invariant
            k <= m,
            m == pat@.len(),
            n == text@.len(),
            i + m <= n,
            forall|j: int| 0 <= j < k ==> text@[i + j] == pat@[j],
        decreases m - k,
    {
        if text[i + k] != pat[k] {
            return false;
        }
        k += 1;
    }
    proof {
        assert(text@.subrange(i as int, i + m) =~= pat@);
    }
    true
}

/// The first position at or after `from` at which `pat` stands in `text`.
fn find(text: &Vec<char>, pat: &Vec<char>, from: usize) -> (r: Option<usize>)
    requires
        from <= text.len(),
    ensures
        match r {
            Some(i) => next_occurrence(text@, pat@, from as int) == Some(i as int) && from <= i
                && i + pat.len() <= text.len(),
            None => next_occurrence(text@, pat@, from as int) is None,
        },
{
    let n = text.len();
    let m = pat.len();
    if m > n {
        return None;
    }
    let last = n - m;
    let mut i: usize = from;
    while i <= last
        invariant
            from <= i,
            last == n - m,
            n == text@.len(),
            m == pat@.len(),
            next_occurrence(text@, pat@, from as int) == next_occurrence(text@, pat@, i as int),
        decreases last - i,
    {
        if occurs(text, pat, i) {
            return Some(i);
        }
        if i == last {
            return None;
        }
        i += 1;
    }
    None
}

/// Tells whether `s` begins with `pat`.
pub fn starts_with(s: &str, pat: &str) -> (r: bool)
    ensures
        r == has_prefix(s@, pat@),
{
    let text = chars_of(s);
    let p = chars_of(pat);
    p.len() <= text.len() && occurs(&text, &p, 0)
}

/// Tells whether `s` ends with `pat`.
pub fn ends_with(s: &str, pat: &str) -> (r: bool)
    ensures
        r == has_suffix(s@, pat@),
{
    let text = chars_of(s);
    let p = chars_of(pat);
    p.len() <= text.len() && occurs(&text, &p, text.len() - p.len())
}

/// Tells whether `pat` stands anywhere in `s`.
pub fn contains(s: &str, pat: &str) -> (r: bool)
    ensures
        r == has_infix(s@, pat@),
{
    let text = chars_of(s);
    let p = chars_of(pat);
    find(&text, &p, 0).is_some()
}

/// Tells whether every character of `s` lies in the 7-bit range.
pub fn plain(s: &str) -> (r: bool)
    ensures
        r == is_plain(s@),
{
    let text = chars_of(s);
    let n = text.len();
    let mut i: usize = 0;
    while i < n
        invariant
            i <= n,
            n == text@.len(),
            text@ == s@,
            forall|j: int| 0 <= j < i ==> (#[trigger] text@[j]) <= '\u{7F}',
        decreases n - i,
    {
        if text[i] > '\u{7F}' {
            return false;
        }
        i += 1;
    }
    true
}

/// The number of characters of `s`.
pub fn char_count(s: &str) -> (n: usize)
    ensures
        n == s@.len(),
{
    s.unicode_len()
}

/// The pieces of `s` between the occurrences of the separator `pat`.
pub fn split_text<'a>(s: &'a str, pat: &str) -> (out: Vec<&'a str>)
    requires
        pat@.len() > 0,
    ensures
        out.deep_view() == split(s@, pat@),
        out@.len() >= 1,
{
    let text = chars_of(s);
    let p = chars_of(pat);
    let n = text.len();
    let mut out: Vec<&'a str> = Vec::new();
    let mut from: usize = 0;
    loop
        invariant
            from <= n,
            n == text@.len(),
            text@ == s@,
            p@ == pat@,
            p@.len() > 0,
            split(s@, pat@) == out.deep_view() + split_from(s@, pat@, from as int),
        decreases n - from,
    {
        match find(&text, &p, from) {
            Some(i) => {
                out.push(s.substring_char(from, i));
                from = i + p.len();
            },
            None => {
                out.push(s.substring_char(from, n));
                return out;
            },
        }
    }
}

/// `s` cut at the first occurrence of `pat`.
pub fn split_at_first<'a>(s: &'a str, pat: &str) -> (out: (&'a str, Option<&'a str>))
    ensures
        out.0@ == split_first(s@, pat@).0,
        match out.1 {
            Some(rest) => split_first(s@, pat@).1 == Some(rest@),
            None => split_first(s@, pat@).1 is None,
        },
{
    let text = chars_of(s);
    let p = chars_of(pat);
    match find(&text, &p, 0) {
        Some(i) => (s.substring_char(0, i), Some(s.substring_char(i + p.len(), text.len()))),
        None => {
            (s.substring_char(0, text.len()), None)
        },
    }
}

/// `s` with every occurrence of `pat` replaced by `with`.
pub fn replace(s: &str, pat: &str, with: &str) -> (out: String)
    requires
        pat@.len() > 0,
    ensures
        out@ == replaced(s@, pat@, with@),
{
    let text = chars_of(s);
    let p = chars_of(pat);
    let n = text.len();
    let mut out = String::new();
    let mut from: usize = 0;
    loop
        invariant
            from <= n,
            n == text@.len(),
            text@ == s@,
            p@ == pat@,
            p@.len() > 0,
            replaced(s@, pat@, with@) == out@ + replace_from(s@, pat@, with@, from as int),
        decreases n - from,
    {
        match find(&text, &p, from) {
            Some(i) => {
                let ghost before = out@;
                out.append(s.substring_char(from, i));
                out.append(with);
                proof {
                    assert(before + (s@.subrange(from as int, i as int) + with@ + replace_from(
                        s@,
                        pat@,
                        with@,
                        i + p@.len(),
                    )) =~= out@ + replace_from(s@, pat@, with@, i + p@.len()));
                }
                from = i + p.len();
            },
            None => {
                out.append(s.substring_char(from, n));
                return out;
            },
        }
    }
}

/// `s` without the prefix `pat`, if it begins with it.
pub fn strip_prefix<'a>(s: &'a str, pat: &str) -> (r: &'a str)
    ensures
        r@ == without_prefix(s@, pat@),
{
    let text = chars_of(s);
    let p = chars_of(pat);
    if p.len() <= text.len() && occurs(&text, &p, 0) {
        s.substring_char(p.len(), text.len())
    } else {
        s
    }
}

/// The three texts one after the other.
pub fn concat3(a: &str, b: &str, c: &str) -> (out: String)
    ensures
        out@ == a@ + b@ + c@,
{
    let mut out = a.to_owned();
    out.append(b);
    out.append(c);
    out
}

/// The text of one decimal digit.
fn digit_text(d: usize) -> (r: &'static str)
    requires
        d < 10,
    ensures
        r@ == seq![digit(d as int)],
{
    proof {
        reveal_strlit("0");
        reveal_strlit("1");
        reveal_strlit("2");
        reveal_strlit("3");
        reveal_strlit("4");
        reveal_strlit("5");
        reveal_strlit("6");
        reveal_strlit("7");
        reveal_strlit("8");
        reveal_strlit("9");
    }
    let r = if d == 0 {
        "0"
    } else if d == 1 {
        "1"
    } else if d == 2 {
        "2"
    } else if d == 3 {
        "3"
    } else if d == 4 {
        "4"
    } else if d == 5 {
        "5"
    } else if d == 6 {
        "6"
    } else if d == 7 {
        "7"
    } else if d == 8 {
        "8"
    } else {
        "9"
    };
    r
}

/// The decimal numeral of `n`.
pub fn decimal_text(n: usize) -> (out: String)
    ensures
        out@ == decimal(n as nat),
    decreases n,
{
    if n < 10 {
        digit_text(n).to_owned()
    } else {
        let mut out = decimal_text(n / 10);
        out.append(digit_text(n % 10));
        out
    }
}

} // verus!
