use vstd::prelude::*;
use vstd::std_specs::iter::IteratorSpec;

verus! {

/// Whether `c` is white space: the code points that carry Unicode's
/// `White_Space` property.
pub open spec fn is_space(c: char) -> bool {
    ||| '\u{9}' <= c <= '\u{d}'
    ||| c == ' '
    ||| c == '\u{85}'
    ||| c == '\u{a0}'
    ||| c == '\u{1680}'
    ||| '\u{2000}' <= c <= '\u{200a}'
    ||| c == '\u{2028}'
    ||| c == '\u{2029}'
    ||| c == '\u{202f}'
    ||| c == '\u{205f}'
    ||| c == '\u{3000}'
}

/// Tells whether `c` is white space.
pub fn char_is_space(c: char) -> (r: bool)
    ensures
        r == is_space(c),
{
    ('\u{9}' <= c && c <= '\u{d}') || c == ' ' || c == '\u{85}' || c == '\u{a0}' || c
        == '\u{1680}' || ('\u{2000}' <= c && c <= '\u{200a}') || c == '\u{2028}' || c
        == '\u{2029}' || c == '\u{202f}' || c == '\u{205f}' || c == '\u{3000}'
}

/// `i` is the first index at which `s` holds `c`.
pub open spec fn is_first(s: Seq<char>, c: char, i: int) -> bool {
    &&& 0 <= i < s.len()
    &&& s[i] == c
    &&& forall|j: int| 0 <= j < i ==> s[j] != c
}

/// The first index at which `s` holds `c`, if it holds `c` at all.
pub open spec fn index_of(s: Seq<char>, c: char) -> Option<int> {
    if exists|i: int| is_first(s, c, i) {
        Some(choose|i: int| is_first(s, c, i))
    } else {
        None
    }
}

/// There is only one first occurrence.
pub proof fn lemma_index_of_found(s: Seq<char>, c: char, i: int)
    requires
        is_first(s, c, i),
    ensures
        index_of(s, c) == Some(i),
{
    let k = choose|k: int| is_first(s, c, k);
    assert(is_first(s, c, k));
    if k < i {
        assert(s[k] != c);
    }
    if i < k {
        assert(s[i] != c);
    }
}

/// Where `c` occurs nowhere, there is no first occurrence.
pub proof fn lemma_index_of_absent(s: Seq<char>, c: char)
    requires
        forall|j: int| 0 <= j < s.len() ==> s[j] != c,
    ensures
        index_of(s, c) is None,
{
}

/// The position of the first `c` in `s`, counted in characters.
pub fn find(s: &str, c: char) -> (r: Option<usize>)
    ensures
        match r {
            Some(i) => index_of(s@, c) == Some(i as int) && i < s@.len(),
            None => index_of(s@, c) is None,
        },
{
    let total = s.unicode_len();
    let mut n: usize = 0;
    for x in it: s.chars()
        invariant
            n == it.index(),
            it.seq() == s@,
            total == s@.len(),
            forall|j: int| 0 <= j < n ==> s@[j] != c,
    {
        if x == c {
            proof {
                lemma_index_of_found(s@, c, n as int);
            }
            return Some(n);
        }
        n = n + 1;
    }
    proof {
        lemma_index_of_absent(s@, c);
    }
    None
}

/// Whether `s` holds `c` anywhere.
pub fn contains(s: &str, c: char) -> (r: bool)
    ensures
        r == index_of(s@, c).is_some(),
{
    find(s, c).is_some()
}

/// `s` cut at its first `c`: what stands before it and what stands after it.
pub open spec fn split_first(s: Seq<char>, c: char) -> Option<(Seq<char>, Seq<char>)> {
    match index_of(s, c) {
        Some(i) => Some((s.take(i), s.skip(i + 1))),
        None => None,
    }
}

/// Cuts `s` at its first `c`.
pub fn split_once<'a>(s: &'a str, c: char) -> (r: Option<(&'a str, &'a str)>)
    ensures
        match r {
            Some((head, tail)) => split_first(s@, c) == Some((head@, tail@)),
            None => split_first(s@, c) is None,
        },
{
    match find(s, c) {
        Some(i) => {
            let total = s.unicode_len();
            proof {
                lemma_index_of_found(s@, c, i as int);
            }
            let head = s.substring_char(0, i);
            let tail = s.substring_char(i + 1, total);
            Some((head, tail))
        },
        None => None,
    }
}

/// `s` without the white space it starts with.
pub open spec fn trim_start(s: Seq<char>) -> Seq<char>
    decreases s.len(),
{
    if s.len() > 0 && is_space(s.first()) {
        trim_start(s.drop_first())
    } else {
        s
    }
}

/// `s` without the white space it ends with.
pub open spec fn trim_end(s: Seq<char>) -> Seq<char>
    decreases s.len(),
{
    if s.len() > 0 && is_space(s.last()) {
        trim_end(s.drop_last())
    } else {
        s
    }
}

/// `s` without the white space at either end.
pub open spec fn trimmed(s: Seq<char>) -> Seq<char> {
    trim_end(trim_start(s))
}

/// Trimming at the start removes exactly the leading run of white space.
pub proof fn lemma_trim_start(s: Seq<char>, a: int)
    requires
        0 <= a <= s.len(),
        forall|j: int| 0 <= j < a ==> is_space(s[j]),
        a < s.len() ==> !is_space(s[a]),
    ensures
        trim_start(s) == s.skip(a),
    decreases a,
{
    if a == 0 {
        assert(s.skip(0) =~= s);
    } else {
        assert(is_space(s[0]));
        let rest = s.drop_first();
        assert forall|j: int| 0 <= j < a - 1 implies is_space(rest[j]) by {
            assert(rest[j] == s[j + 1]);
        }
        lemma_trim_start(rest, a - 1);
        assert(rest.skip(a - 1) =~= s.skip(a));
    }
}

/// Trimming at the end removes exactly the trailing run of white space.
pub proof fn lemma_trim_end(s: Seq<char>, b: int)
    requires
        0 <= b <= s.len(),
        forall|j: int| b <= j < s.len() ==> is_space(s[j]),
        0 < b ==> !is_space(s[b - 1]),
    ensures
        trim_end(s) == s.take(b),
    decreases s.len() - b,
{
    if b == s.len() {
        assert(s.take(b) =~= s);
    } else {
        assert(is_space(s[s.len() - 1]));
        let rest = s.drop_last();
        lemma_trim_end(rest, b);
        assert(rest.take(b) =~= s.take(b));
    }
}

/// Text that neither starts nor ends with white space is left as it is.
pub proof fn lemma_trimmed_unchanged(s: Seq<char>)
    requires
        s.len() > 0 ==> !is_space(s.first()) && !is_space(s.last()),
    ensures
        trimmed(s) == s,
{
}

/// Removes the white space at both ends of `s`.
pub fn trim<'a>(s: &'a str) -> (r: &'a str)
    ensures
        r@ == trimmed(s@),
{
    let total = s.unicode_len();
    let mut n: usize = 0;
    let mut start: usize = 0;
    let mut end: usize = 0;
    let mut seen = false;
    for x in it: s.chars()
        invariant
            n == it.index(),
            it.seq() == s@,
            total == s@.len(),
            !seen ==> start == n && end == 0,
            seen ==> start < end <= n && !is_space(s@[start as int]) && !is_space(
                s@[end - 1],
            ),
            forall|j: int| 0 <= j < start ==> is_space(s@[j]),
            forall|j: int| end <= j < n && seen ==> is_space(s@[j]),
    {
        if !char_is_space(x) {
            if !seen {
                seen = true;
                start = n;
            }
            end = n + 1;
        } else if !seen {
            start = n + 1;
        }
        n = n + 1;
    }
    if seen {
        proof {
            lemma_trim_start(s@, start as int);
            let rest = s@.skip(start as int);
            lemma_trim_end(rest, end - start);
            assert(rest.take(end - start) =~= s@.subrange(start as int, end as int));
        }
        s.substring_char(start, end)
    } else {
        proof {
            lemma_trim_start(s@, total as int);
            assert(s@.skip(total as int) =~= s@.subrange(0, 0));
        }
        s.substring_char(0, 0)
    }
}

/// The value of the decimal digit `c`.
pub open spec fn digit_of(c: char) -> Option<nat> {
    if '0' <= c <= '9' {
        Some((c as int - '0' as int) as nat)
    } else {
        None
    }
}

/// Whether `s` is made of decimal digits only.
pub open spec fn all_digits(s: Seq<char>) -> bool {
    forall|i: int| 0 <= i < s.len() ==> (#[trigger] digit_of(s[i])).is_some()
}

/// The number that the digits of `s` write in base ten.
pub open spec fn decimal(s: Seq<char>) -> nat
    decreases s.len(),
{
    if s.len() == 0 {
        0
    } else {
        10 * decimal(s.drop_last()) + digit_of(s.last()).unwrap_or(0)
    }
}

/// The number that `s` writes: one or more decimal digits and nothing else,
/// with a value that a machine word can hold.
pub open spec fn number_of(s: Seq<char>) -> Option<usize> {
    if s.len() > 0 && all_digits(s) && decimal(s) <= usize::MAX {
        Some(decimal(s) as usize)
    } else {
        None
    }
}

/// More digits never write a smaller number.
pub proof fn lemma_decimal_grows(s: Seq<char>, n: int)
    requires
        0 <= n <= s.len(),
    ensures
        decimal(s.take(n)) <= decimal(s),
    decreases s.len() - n,
{
    if n == s.len() {
        assert(s.take(n) =~= s);
    } else {
        lemma_decimal_grows(s.drop_last(), n);
        assert(s.drop_last().take(n) =~= s.take(n));
    }
}

/// The character that writes the decimal digit `d`.
pub open spec fn digit_char(d: nat) -> char {
    ('0' as int + d) as char
}

/// `n` written in base ten, without a sign and without zeros in front.
pub open spec fn digits_of(n: nat) -> Seq<char>
    decreases n,
{
    if n < 10 {
        seq![digit_char(n)]
    } else {
        digits_of(n / 10).push(digit_char(n % 10))
    }
}

/// Law: a number written in base ten is read back as that number.
pub proof fn lemma_digits_read_back(n: nat)
    ensures
        digits_of(n).len() > 0,
        all_digits(digits_of(n)),
        decimal(digits_of(n)) == n,
        n <= usize::MAX ==> number_of(digits_of(n)) == Some(n as usize),
    decreases n,
{
    let s = digits_of(n);
    if n < 10 {
        assert(s.drop_last() =~= Seq::<char>::empty());
        assert(digit_of(s.last()) == Some(n));
        assert(decimal(s.drop_last()) == 0);
    } else {
        let head = digits_of(n / 10);
        lemma_digits_read_back(n / 10);
        assert(s.drop_last() =~= head);
        assert(digit_of(s.last()) == Some(n % 10));
        assert forall|i: int| 0 <= i < s.len() implies (#[trigger] digit_of(s[i])).is_some() by {
            if i < head.len() {
                assert(s[i] == head[i]);
            }
        }
    }
}

/// The value of `c` as a decimal digit.
pub fn digit(c: char) -> (r: Option<usize>)
    ensures
        match r {
            Some(d) => digit_of(c) == Some(d as nat),
            None => digit_of(c) is None,
        },
{
    if '0' <= c && c <= '9' {
        Some((c as u32 - '0' as u32) as usize)
    } else {
        None
    }
}

/// Reads `s` as an unsigned decimal number.
pub fn parse_number(s: &str) -> (r: Option<usize>)
    ensures
        r == number_of(s@),
{
    let total = s.unicode_len();
    let mut n: usize = 0;
    let mut value: usize = 0;
    for x in it: s.chars()
        invariant
            n == it.index(),
            it.seq() == s@,
            total == s@.len(),
            all_digits(s@.take(n as int)),
            value == decimal(s@.take(n as int)),
    {
        proof {
            assert(s@.take(n + 1).drop_last() =~= s@.take(n as int));
            assert(s@.take(n + 1).last() == x);
            lemma_decimal_grows(s@, n + 1);
        }
        let d = match digit(x) {
            Some(d) => d,
            None => {
                assert(digit_of(s@[n as int]) is None);
                return None;
            },
        };
        let tens = match value.checked_mul(10) {
            Some(t) => t,
            None => {
                return None;
            },
        };
        value = match tens.checked_add(d) {
            Some(v) => v,
            None => {
                return None;
            },
        };
        n = n + 1;
        assert forall|i: int| 0 <= i < n implies (#[trigger] digit_of(
            s@.take(n as int)[i],
        )).is_some() by {
            if i < n - 1 {
                assert(s@.take(n - 1)[i] == s@[i]);
            }
        }
    }
    proof {
        assert(s@.take(n as int) =~= s@);
    }
    if total == 0 {
        None
    } else {
        Some(value)
    }
}

/// Whether `c` is a letter or a number, as `char::is_alphanumeric` of the
/// standard library decides it from the Unicode tables it was built with.
pub uninterp spec fn alphanumeric(c: char) -> bool;

/// Calls `char::is_alphanumeric`. The answer depends on `c` alone; the
/// contract gives it the name `alphanumeric(c)` and claims nothing else.
#[verifier::external_body]
pub(crate) fn char_is_alphanumeric(c: char) -> (r: bool)
    ensures
        r == alphanumeric(c),
{
    c.is_alphanumeric()
}

/// Whether every character of `s` is a letter or a number.
pub open spec fn all_alphanumeric(s: Seq<char>) -> bool {
    forall|i: int| 0 <= i < s.len() ==> #[trigger] alphanumeric(s[i])
}

/// Tells whether `s` is made of letters and numbers only.
pub fn is_alphanumeric(s: &str) -> (r: bool)
    ensures
        r == all_alphanumeric(s@),
{
    let total = s.unicode_len();
    let mut n: usize = 0;
    for x in it: s.chars()
        invariant
            n == it.index(),
            it.seq() == s@,
            total == s@.len(),
            forall|i: int| 0 <= i < n ==> #[trigger] alphanumeric(s@[i]),
    {
        if !char_is_alphanumeric(x) {
            assert(!alphanumeric(s@[n as int]));
            return false;
        }
        n = n + 1;
    }
    true
}

/// `s` in upper case, as `str::to_uppercase` of the standard library writes
/// it from the Unicode tables it was built with.
pub uninterp spec fn uppercase(s: Seq<char>) -> Seq<char>;

/// Calls `str::to_uppercase`. The new string depends on the characters of `s`
/// alone; the contract gives it the name `uppercase(s@)` and claims nothing
/// else.
#[verifier::external_body]
pub(crate) fn to_uppercase(s: &str) -> (r: String)
    ensures
        r@ == uppercase(s@),
{
    s.to_uppercase()
}

/// Tells whether `a` and `b` hold the same characters.
pub fn same_text(a: &str, b: &str) -> (r: bool)
    ensures
        r == (a@ == b@),
{
    let total = a.unicode_len();
    let mut others = b.chars();
    let mut n: usize = 0;
    for x in it: a.chars()
        invariant
            n == it.index(),
            it.seq() == a@,
            total == a@.len(),
            n <= b@.len(),
            others.remaining() == b@.skip(n as int),
            a@.take(n as int) == b@.take(n as int),
    {
        match others.next() {
            Some(y) => {
                if x != y {
                    return false;
                }
            },
            None => {
                return false;
            },
        }
        n = n + 1;
    }
    let last = others.next();
    proof {
        assert(a@.take(n as int) =~= a@);
        if last is None {
            assert(b@.skip(n as int).len() == 0);
            assert(b@.take(n as int) =~= b@);
        }
    }
    last.is_none()
}

/// `line` without the carriage return that ends it, if one does.
pub open spec fn without_return(line: Seq<char>) -> Seq<char> {
    if line.len() > 0 && line.last() == '\r' {
        line.drop_last()
    } else {
        line
    }
}

/// The lines of `s`. A line ends at a line feed, and a carriage return just
/// before that line feed belongs to the line ending too. The text after the
/// last line feed is a line of its own unless it is empty.
pub open spec fn lines_of(s: Seq<char>) -> Seq<Seq<char>>
    decreases s.len(),
{
    if s.len() == 0 {
        Seq::empty()
    } else {
        match index_of(s, '\n') {
            None => seq![s],
            Some(i) => seq![without_return(s.take(i))] + lines_of(s.skip(i + 1)),
        }
    }
}

/// What each of the strings in `v` holds.
pub open spec fn texts(v: Seq<&str>) -> Seq<Seq<char>> {
    Seq::new(v.len(), |i: int| v[i]@)
}

/// Cuts `s` into its lines.
pub fn split_lines<'a>(s: &'a str) -> (r: Vec<&'a str>)
    ensures
        texts(r@) == lines_of(s@),
{
    let total = s.unicode_len();
    let mut lines: Vec<&'a str> = Vec::new();
    let mut start: usize = 0;
    let mut after_return = false;
    let mut n: usize = 0;
    proof {
        assert(s@.skip(0) =~= s@);
        assert(texts(lines@) + lines_of(s@) =~= lines_of(s@));
    }
    for x in it: s.chars()
        invariant
            n == it.index(),
            it.seq() == s@,
            total == s@.len(),
            start <= n,
            forall|j: int| start <= j < n ==> s@[j] != '\n',
            after_return == (start < n && s@[n - 1] == '\r'),
            lines_of(s@) == texts(lines@) + lines_of(s@.skip(start as int)),
    {
        if x == '\n' {
            let end = if after_return {
                n - 1
            } else {
                n
            };
            let line = s.substring_char(start, end);
            proof {
                let rest = s@.skip(start as int);
                lemma_index_of_found(rest, '\n', n - start);
                assert(rest.take(n - start) =~= s@.subrange(start as int, n as int));
                assert(rest.skip(n - start + 1) =~= s@.skip(n + 1));
                assert(without_return(rest.take(n - start)) =~= line@);
                assert(texts(lines@.push(line)) =~= texts(lines@) + seq![line@]);
                assert(texts(lines@.push(line)) + lines_of(s@.skip(n + 1)) =~= texts(lines@) + (
                seq![line@] + lines_of(s@.skip(n + 1))));
            }
            lines.push(line);
            start = n + 1;
            after_return = false;
        } else {
            after_return = x == '\r';
        }
        n = n + 1;
    }
    if start < total {
        let line = s.substring_char(start, total);
        proof {
            let rest = s@.skip(start as int);
            lemma_index_of_absent(rest, '\n');
            assert(rest =~= line@);
            assert(texts(lines@.push(line)) =~= texts(lines@) + seq![line@]);
        }
        lines.push(line);
    } else {
        proof {
            assert(texts(lines@) + Seq::<Seq<char>>::empty() =~= texts(lines@));
        }
    }
    lines
}

} // verus!
