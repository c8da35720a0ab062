//! Text primitives on `&str`, specified over the sequence of characters.

use vstd::prelude::*;

verus! {

/// `part` stands in `s` at index `i`.
pub open spec fn occurs_at(s: Seq<char>, part: Seq<char>, i: int) -> bool {
    0 <= i && i + part.len() <= s.len() && s.subrange(i, i + part.len()) == part
}

/// The least index at or after `from` at which `part` stands in `s`.
pub open spec fn first_occurrence(s: Seq<char>, part: Seq<char>, from: int) -> Option<int>
    decreases s.len() + 1 - from,
{
    if from < 0 || from + part.len() > s.len() {
        None
    } else if occurs_at(s, part, from) {
        Some(from)
    } else {
        first_occurrence(s, part, from + 1)
    }
}

/// `s` with the first `part` in it replaced by `by`.
pub open spec fn replaced_first(s: Seq<char>, part: Seq<char>, by: Seq<char>) -> Seq<char> {
    match first_occurrence(s, part, 0) {
        Some(i) => s.take(i) + by + s.skip(i + part.len()),
        None => s,
    }
}

/// `s` with every `c` in it replaced by `by`.
pub open spec fn replaced_char(s: Seq<char>, c: char, by: Seq<char>) -> Seq<char>
    decreases s.len(),
{
    if s.len() == 0 {
        Seq::empty()
    } else {
        replaced_char(s.drop_last(), c, by) + (if s.last() == c { by } else { seq![s.last()] })
    }
}

/// `s` from the first character on that `drop` does not hold of.
pub open spec fn trimmed_start(s: Seq<char>, drop: spec_fn(char) -> bool) -> Seq<char>
    decreases s.len(),
{
    if s.len() > 0 && drop(s.first()) {
        trimmed_start(s.drop_first(), drop)
    } else {
        s
    }
}

/// `s` up to and with the last character that `drop` does not hold of.
pub open spec fn trimmed_end(s: Seq<char>, drop: spec_fn(char) -> bool) -> Seq<char>
    decreases s.len(),
{
    if s.len() > 0 && drop(s.last()) {
        trimmed_end(s.drop_last(), drop)
    } else {
        s
    }
}

/// The characters with the Unicode property `White_Space`.
pub open spec fn is_white_space(c: char) -> bool {
    ||| '\u{9}' <= c <= '\u{d}'
    ||| c == ' '
    ||| c == '\u{85}'
    ||| c == '\u{a0}'
    ||| c == '\u{1680}'
    ||| '\u{2000}' <= c <= '\u{200a}'
    ||| c == '\u{2028}'
    ||| c == '\u{2029}'
    ||| c == '\u{202f}'
    ||| c == '\u{205f}'
    ||| c == '\u{3000}'
}

/// `s` without the white space at its two ends.
pub open spec fn trimmed(s: Seq<char>) -> Seq<char> {
    let space = |c: char| is_white_space(c);
    trimmed_end(trimmed_start(s, space), space)
}

/// The property to be `c`.
pub open spec fn same_as(c: char) -> spec_fn(char) -> bool {
    |x: char| x == c
}

/// `s` without the characters `c` at its two ends.
pub open spec fn trimmed_of(s: Seq<char>, c: char) -> Seq<char> {
    trimmed_end(trimmed_start(s, same_as(c)), same_as(c))
}

/// The order of texts: by the first character in which they differ, a text
/// before its continuations.
pub open spec fn text_le(a: Seq<char>, b: Seq<char>) -> bool
    decreases a.len(),
{
    if a.len() == 0 {
        true
    } else if b.len() == 0 {
        false
    } else if a.first() != b.first() {
        a.first() < b.first()
    } else {
        text_le(a.drop_first(), b.drop_first())
    }
}

pub open spec fn is_digit(c: char) -> bool {
    '0' <= c <= '9'
}

pub open spec fn all_digits(s: Seq<char>) -> bool {
    forall|i: int| 0 <= i < s.len() ==> is_digit(#[trigger] s[i])
}

/// The number that the decimal digits `s` write.
pub open spec fn digits_value(s: Seq<char>) -> nat
    decreases s.len(),
{
    if s.len() == 0 {
        0
    } else {
        10 * digits_value(s.drop_last()) + (s.last() as nat - '0' as nat) as nat
    }
}

/// The number that `s` writes: an optional `+`, then one or more decimal
/// digits, and nothing else.
pub open spec fn number(s: Seq<char>) -> Option<nat> {
    let digits = if s.len() > 0 && s.first() == '+' { s.drop_first() } else { s };
    if digits.len() > 0 && all_digits(digits) {
        Some(digits_value(digits))
    } else {
        None
    }
}

/// `lines` with `between` between each two that follow each other.
pub open spec fn joined_lines(lines: Seq<Seq<char>>, between: Seq<char>) -> Seq<char>
    decreases lines.len(),
{
    if lines.len() == 0 {
        Seq::empty()
    } else if lines.len() == 1 {
        lines[0]
    } else {
        joined_lines(lines.drop_last(), between) + between + lines.last()
    }
}

/// The characters of a string that may be missing.
pub open spec fn text_of(s: Option<String>) -> Option<Seq<char>> {
    match s {
        Some(t) => Some(t@),
        None => None,
    }
}

/// The characters of each of some strings.
pub open spec fn texts(strings: Seq<String>) -> Seq<Seq<char>> {
    strings.map_values(|s: String| s@)
}

pub fn same_text(a: &str, b: &str) -> (same: bool)
    ensures
        same == (a@ == b@),
{
    let n: usize = a.unicode_len();
    if n != b.unicode_len() {
        return false;
    }
    let mut i: usize = 0;
    while i < n
        invariant
            n == a@.len(),
            n == b@.len(),
            i <= n,
            forall|k: int| 0 <= k < i ==> a@[k] == b@[k],
        decreases n - i,
    {
        if a.get_char(i) != b.get_char(i) {
            return false;
        }
        i = i + 1;
    }
    assert(a@ =~= b@);
    true
}

pub fn strip_prefix<'a>(s: &'a str, prefix: &str) -> (rest: Option<&'a str>)
    ensures
        match rest {
            Some(r) => prefix@.is_prefix_of(s@) && r@ == s@.skip(prefix@.len() as int),
            None => !prefix@.is_prefix_of(s@),
        },
{
    let n: usize = s.unicode_len();
    let k: usize = prefix.unicode_len();
    if k > n {
        return None;
    }
    if same_text(s.substring_char(0, k), prefix) {
        Some(s.substring_char(k, n))
    } else {
        None
    }
}

pub fn strip_suffix<'a>(s: &'a str, suffix: &str) -> (rest: Option<&'a str>)
    ensures
        match rest {
            Some(r) => suffix@.is_suffix_of(s@) && r@ == s@.take(s@.len() - suffix@.len()),
            None => !suffix@.is_suffix_of(s@),
        },
{
    let n: usize = s.unicode_len();
    let k: usize = suffix.unicode_len();
    if k > n {
        return None;
    }
    if same_text(s.substring_char(n - k, n), suffix) {
        Some(s.substring_char(0, n - k))
    } else {
        None
    }
}

/// The index of the first `c` in `s`.
pub fn find_char(s: &str, c: char) -> (index: Option<usize>)
    ensures
        index is None <==> s@.index_of_first(c) is None,
        index matches Some(i) ==> s@.index_of_first(c) == Some(i as int) && i < s@.len(),
{
    proof {
        s@.index_of_first_ensures(c);
    }
    let n: usize = s.unicode_len();
    let mut i: usize = 0;
    while i < n
        invariant
            n == s@.len(),
            i <= n,
            forall|k: int| 0 <= k < i ==> s@[k] != c,
            match s@.index_of_first(c) {
                Some(f) => 0 <= f < s@.len() && s@[f] == c && forall|j: int|
                    0 <= j < f < s@.len() ==> s@[j] != c,
                None => forall|j: int| 0 <= j < s@.len() ==> s@[j] != c,
            },
        decreases n - i,
    {
        if s.get_char(i) == c {
            return Some(i);
        }
        i = i + 1;
    }
    None
}

/// The index of the last `c` in `s`.
pub fn rfind_char(s: &str, c: char) -> (index: Option<usize>)
    ensures
        index is None <==> s@.index_of_last(c) is None,
        index matches Some(i) ==> s@.index_of_last(c) == Some(i as int) && i < s@.len(),
{
    proof {
        s@.index_of_last_ensures(c);
    }
    let n: usize = s.unicode_len();
    let mut i: usize = n;
    while i > 0
        invariant
            n == s@.len(),
            i <= n,
            forall|k: int| i <= k < n ==> s@[k] != c,
            match s@.index_of_last(c) {
                Some(f) => 0 <= f < s@.len() && s@[f] == c && forall|j: int|
                    f < j < s@.len() ==> s@[j] != c,
                None => forall|j: int| 0 <= j < s@.len() ==> s@[j] != c,
            },
        decreases i,
    {
        if s.get_char(i - 1) == c {
            return Some(i - 1);
        }
        i = i - 1;
    }
    None
}

pub fn contains_char(s: &str, c: char) -> (found: bool)
    ensures
        found == s@.contains(c),
{
    proof {
        s@.index_of_first_ensures(c);
    }
    match find_char(s, c) {
        Some(_) => true,
        None => false,
    }
}

/// `s` with the first `part` in it replaced by `by`.
pub fn replace_first(s: &str, part: &str, by: &str) -> (r: String)
    ensures
        r@ == replaced_first(s@, part@, by@),
{
    let n: usize = s.unicode_len();
    let k: usize = part.unicode_len();
    let mut i: usize = 0;
    while k <= n && i <= n - k
        invariant
            n == s@.len(),
            k == part@.len(),
            k <= n ==> i + k <= n + 1,
            first_occurrence(s@, part@, 0) == first_occurrence(s@, part@, i as int),
        decreases n + 1 - i,
    {
        if same_text(s.substring_char(i, i + k), part) {
            let mut r = s.substring_char(0, i).to_owned();
            r.append(by);
            r.append(s.substring_char(i + k, n));
            return r;
        }
        assert(k == 0 ==> s@.subrange(i as int, i + k) =~= part@);
        i = i + 1;
    }
    s.to_owned()
}

/// `s` with every `c` in it replaced by `by`.
pub fn replace_char(s: &str, c: char, by: &str) -> (r: String)
    ensures
        r@ == replaced_char(s@, c, by@),
{
    let n: usize = s.unicode_len();
    let mut r = String::new();
    let mut i: usize = 0;
    while i < n
        invariant
            n == s@.len(),
            i <= n,
            r@ == replaced_char(s@.take(i as int), c, by@),
        decreases n - i,
    {
        proof {
            assert(s@.take(i + 1).drop_last() =~= s@.take(i as int));
        }
        if s.get_char(i) == c {
            r.append(by);
        } else {
            r.append(s.substring_char(i, i + 1));
            assert(s@.subrange(i as int, i + 1) =~= seq![s@[i as int]]);
        }
        i = i + 1;
    }
    assert(s@.take(n as int) =~= s@);
    r
}

/// The property `White_Space` of a character.
pub fn white_space(c: char) -> (r: bool)
    ensures
        r == is_white_space(c),
{
    ('\u{9}' <= c && c <= '\u{d}') || c == ' ' || c == '\u{85}' || c == '\u{a0}' || c == '\u{1680}'
        || ('\u{2000}' <= c && c <= '\u{200a}') || c == '\u{2028}' || c == '\u{2029}' || c
        == '\u{202f}' || c == '\u{205f}' || c == '\u{3000}'
}

/// `s` without the white space at its two ends.
pub fn trim<'a>(s: &'a str) -> (r: &'a str)
    ensures
        r@ == trimmed(s@),
{
    let ghost space = |c: char| is_white_space(c);
    let n: usize = s.unicode_len();
    let mut i: usize = 0;
    assert(s@.subrange(0, n as int) =~= s@);
    while i < n && white_space(s.get_char(i))
        invariant
            n == s@.len(),
            i <= n,
            space == (|c: char| is_white_space(c)),
            trimmed_start(s@, space) == trimmed_start(s@.subrange(i as int, n as int), space),
        decreases n - i,
    {
        assert(s@.subrange(i as int, n as int).drop_first() =~= s@.subrange(i + 1, n as int));
        i = i + 1;
    }
    let mut j: usize = n;
    while j > i && white_space(s.get_char(j - 1))
        invariant
            n == s@.len(),
            i <= j <= n,
            space == (|c: char| is_white_space(c)),
            trimmed_end(trimmed_start(s@, space), space) == trimmed_end(
                s@.subrange(i as int, j as int),
                space,
            ),
        decreases j,
    {
        assert(s@.subrange(i as int, j as int).drop_last() =~= s@.subrange(i as int, j - 1));
        j = j - 1;
    }
    s.substring_char(i, j)
}

/// `s` without the characters `c` at its two ends.
pub fn trim_of<'a>(s: &'a str, c: char) -> (r: &'a str)
    ensures
        r@ == trimmed_of(s@, c),
{
    let ghost same = same_as(c);
    let n: usize = s.unicode_len();
    let mut i: usize = 0;
    assert(s@.subrange(0, n as int) =~= s@);
    while i < n && s.get_char(i) == c
        invariant
            n == s@.len(),
            i <= n,
            same == same_as(c),
            trimmed_start(s@, same) == trimmed_start(s@.subrange(i as int, n as int), same),
        decreases n - i,
    {
        assert(s@.subrange(i as int, n as int).drop_first() =~= s@.subrange(i + 1, n as int));
        i = i + 1;
    }
    let mut j: usize = n;
    while j > i && s.get_char(j - 1) == c
        invariant
            n == s@.len(),
            i <= j <= n,
            same == same_as(c),
            trimmed_end(trimmed_start(s@, same), same) == trimmed_end(
                s@.subrange(i as int, j as int),
                same,
            ),
        decreases j,
    {
        assert(s@.subrange(i as int, j as int).drop_last() =~= s@.subrange(i as int, j - 1));
        j = j - 1;
    }
    s.substring_char(i, j)
}

/// Whether `a` comes no later than `b` in the order of texts.
pub fn at_most(a: &str, b: &str) -> (r: bool)
    ensures
        r == text_le(a@, b@),
{
    let n: usize = a.unicode_len();
    let m: usize = b.unicode_len();
    let mut i: usize = 0;
    assert(a@.skip(0) =~= a@);
    assert(b@.skip(0) =~= b@);
    while i < n && i < m
        invariant
            n == a@.len(),
            m == b@.len(),
            i <= n,
            i <= m,
            text_le(a@, b@) == text_le(a@.skip(i as int), b@.skip(i as int)),
        decreases n - i,
    {
        let x: char = a.get_char(i);
        let y: char = b.get_char(i);
        if x != y {
            return x < y;
        }
        assert(a@.skip(i as int).drop_first() =~= a@.skip(i + 1));
        assert(b@.skip(i as int).drop_first() =~= b@.skip(i + 1));
        i = i + 1;
    }
    i == n
}

proof fn lemma_digits_monotone(s: Seq<char>, k: int)
    requires
        0 <= k <= s.len(),
    ensures
        digits_value(s.take(k)) <= digits_value(s),
    decreases s.len() - k,
{
    if k == s.len() {
        assert(s.take(k) =~= s);
    } else {
        lemma_digits_monotone(s, k + 1);
        assert(s.take(k + 1).drop_last() =~= s.take(k));
    }
}

/// The number that `s` writes, where it fits in 64 bits.
pub fn parse_u64(s: &str) -> (r: Option<u64>)
    ensures
        match r {
            Some(n) => number(s@) == Some(n as nat),
            None => match number(s@) {
                Some(n) => n > u64::MAX,
                None => true,
            },
        },
{
    let n: usize = s.unicode_len();
    let mut start: usize = 0;
    if n > 0 && s.get_char(0) == '+' {
        start = 1;
    }
    let ghost digits = s@.subrange(start as int, n as int);
    assert(start == 0 ==> digits =~= s@);
    assert(start == 1 ==> digits =~= s@.drop_first());
    if start == n {
        return None;
    }
    let mut total: u64 = 0;
    let mut i: usize = start;
    while i < n
        invariant
            start <= i <= n,
            n == s@.len(),
            digits == s@.subrange(start as int, n as int),
            number(s@) == (if all_digits(digits) {
                Some(digits_value(digits))
            } else {
                None
            }),
            forall|j: int| 0 <= j < i - start ==> is_digit(#[trigger] digits[j]),
            total == digits_value(digits.take(i - start)),
        decreases n - i,
    {
        let c: char = s.get_char(i);
        assert(digits[i - start] == c);
        if !('0' <= c && c <= '9') {
            return None;
        }
        let d: u64 = (c as u32 - '0' as u32) as u64;
        proof {
            assert(digits.take(i - start + 1).drop_last() =~= digits.take(i - start));
            lemma_digits_monotone(digits, i - start + 1);
        }
        if total > u64::MAX / 10 {
            return None;
        }
        if total * 10 > u64::MAX - d {
            return None;
        }
        total = total * 10 + d;
        i = i + 1;
    }
    assert(digits.take(n - start) =~= digits);
    Some(total)
}

/// `lines` with `between` between each two that follow each other.
pub fn join_lines(lines: &Vec<String>, between: &str) -> (r: String)
    ensures
        r@ == joined_lines(texts(lines@), between@),
{
    let mut r = String::new();
    let mut i: usize = 0;
    while i < lines.len()
        invariant
            i <= lines.len(),
            r@ == joined_lines(texts(lines@).take(i as int), between@),
        decreases lines.len() - i,
    {
        if i > 0 {
            r.append(between);
        }
        r.append(lines[i].as_str());
        proof {
            assert(texts(lines@).take(i + 1).drop_last() =~= texts(lines@).take(i as int));
            assert(texts(lines@).take(i + 1).last() == lines@[i as int]@);
        }
        i = i + 1;
    }
    assert(texts(lines@).take(lines.len() as int) =~= texts(lines@));
    r
}

/// Replacing a character treats the parts of a text apart.
pub proof fn law_replaced_char_of_parts(a: Seq<char>, b: Seq<char>, c: char, by: Seq<char>)
    ensures
        replaced_char(a + b, c, by) == replaced_char(a, c, by) + replaced_char(b, c, by),
    decreases b.len(),
{
    if b.len() == 0 {
        assert(a + b =~= a);
        assert(replaced_char(a, c, by) + replaced_char(b, c, by) =~= replaced_char(a, c, by));
    } else {
        assert((a + b).drop_last() =~= a + b.drop_last());
        law_replaced_char_of_parts(a, b.drop_last(), c, by);
        let last = if b.last() == c { by } else { seq![b.last()] };
        assert((replaced_char(a, c, by) + replaced_char(b.drop_last(), c, by)) + last
            =~= replaced_char(a, c, by) + (replaced_char(b.drop_last(), c, by) + last));
    }
}

/// Replacing a character leaves a text alone that does not hold it.
pub proof fn law_replaced_char_absent(s: Seq<char>, c: char, by: Seq<char>)
    requires
        !s.contains(c),
    ensures
        replaced_char(s, c, by) == s,
    decreases s.len(),
{
    if s.len() > 0 {
        assert forall|i: int| 0 <= i < s.drop_last().len() implies s.drop_last()[i] != c by {
            assert(s.contains(s[i]));
        }
        law_replaced_char_absent(s.drop_last(), c, by);
        assert(s.contains(s.last()));
        assert(s.drop_last() + seq![s.last()] =~= s);
    } else {
        assert(replaced_char(s, c, by) =~= s);
    }
}

/// The first occurrence is where a part stands and stands at no index before.
pub proof fn law_first_occurrence(s: Seq<char>, part: Seq<char>, from: int, at: int)
    requires
        0 <= from <= at,
        occurs_at(s, part, at),
        forall|i: int| from <= i < at ==> !occurs_at(s, part, i),
    ensures
        first_occurrence(s, part, from) == Some(at),
    decreases at - from,
{
    if from < at {
        law_first_occurrence(s, part, from + 1, at);
    }
}

/// A part stands where its first occurrence is.
pub proof fn law_first_occurrence_stands(s: Seq<char>, part: Seq<char>, from: int)
    ensures
        first_occurrence(s, part, from) matches Some(i) ==> from <= i && occurs_at(s, part, i),
    decreases s.len() + 1 - from,
{
    if 0 <= from && from + part.len() <= s.len() && !occurs_at(s, part, from) {
        law_first_occurrence_stands(s, part, from + 1);
    }
}

/// A part that stands nowhere has no first occurrence.
pub proof fn law_no_occurrence(s: Seq<char>, part: Seq<char>, from: int)
    requires
        forall|i: int| from <= i ==> !occurs_at(s, part, i),
    ensures
        first_occurrence(s, part, from) is None,
    decreases s.len() + 1 - from,
{
    if 0 <= from && from + part.len() <= s.len() {
        assert(!occurs_at(s, part, from));
        law_no_occurrence(s, part, from + 1);
    }
}

/// Each of the lines that are joined stands in the whole.
pub proof fn law_joined_lines_hold_each(lines: Seq<Seq<char>>, between: Seq<char>, i: int) -> (at: int)
    requires
        0 <= i < lines.len(),
    ensures
        occurs_at(joined_lines(lines, between), lines[i], at),
    decreases lines.len(),
{
    let whole = joined_lines(lines, between);
    if lines.len() == 1 {
        assert(whole.subrange(0, lines[0].len() as int) =~= lines[0]);
        0
    } else if i == lines.len() - 1 {
        let at = whole.len() - lines[i].len();
        assert(whole.subrange(at, whole.len() as int) =~= lines[i]);
        at
    } else {
        let at = law_joined_lines_hold_each(lines.drop_last(), between, i);
        let inner = joined_lines(lines.drop_last(), between);
        assert(whole.subrange(at, at + lines[i].len()) =~= inner.subrange(at, at + lines[i].len()));
        at
    }
}

/// A part stands at an index iff the characters from there on are its own.
pub proof fn law_occurrence_is_by_characters(s: Seq<char>, part: Seq<char>, i: int)
    ensures
        occurs_at(s, part, i) <==> 0 <= i && i + part.len() <= s.len() && forall|k: int|
            0 <= k < part.len() ==> s[i + k] == #[trigger] part[k],
{
    if 0 <= i && i + part.len() <= s.len() {
        let sub = s.subrange(i, i + part.len());
        if sub == part {
            assert forall|k: int| 0 <= k < part.len() implies s[i + k] == #[trigger] part[k] by {
                assert(sub[k] == s[i + k]);
            }
        } else if forall|k: int| 0 <= k < part.len() ==> s[i + k] == #[trigger] part[k] {
            assert(sub =~= part);
        }
    }
}

/// The first `part` in a text gives way to `by`, what stands before it and after
/// it stays, and a text without `part` stays as it is.
pub proof fn law_first_part_is_replaced(a: Seq<char>, part: Seq<char>, b: Seq<char>, by: Seq<char>)
    ensures
        (forall|i: int| 0 <= i < a.len() ==> !occurs_at(a + part + b, part, i)) ==> replaced_first(
            a + part + b,
            part,
            by,
        ) == a + by + b,
        (forall|i: int| !occurs_at(a, part, i)) ==> replaced_first(a, part, by) == a,
{
    let s = a + part + b;
    if forall|i: int| 0 <= i < a.len() ==> !occurs_at(s, part, i) {
        let at = a.len() as int;
        assert(s.subrange(at, at + part.len()) =~= part);
        law_first_occurrence(s, part, 0, at);
        assert(s.take(at) =~= a);
        assert(s.skip(at + part.len()) =~= b);
    }
    if forall|i: int| !occurs_at(a, part, i) {
        law_no_occurrence(a, part, 0);
    }
}

/// A character that is replaced gives way to `by`, and any other stays.
pub proof fn law_replaced_char_of_one(x: char, c: char, by: Seq<char>)
    ensures
        x == c ==> replaced_char(seq![x], c, by) == by,
        x != c ==> replaced_char(seq![x], c, by) == seq![x],
        replaced_char(Seq::empty(), c, by) == Seq::<char>::empty(),
{
    reveal_with_fuel(replaced_char, 2);
    assert(seq![x].drop_last() =~= Seq::<char>::empty());
    assert(Seq::<char>::empty() + by =~= by);
    assert(Seq::<char>::empty() + seq![x] =~= seq![x]);
}

proof fn lemma_trimmed_start(a: Seq<char>, rest: Seq<char>, drop: spec_fn(char) -> bool)
    requires
        forall|i: int| 0 <= i < a.len() ==> drop(#[trigger] a[i]),
        rest.len() > 0 ==> !drop(rest.first()),
    ensures
        trimmed_start(a + rest, drop) == rest,
    decreases a.len(),
{
    if a.len() > 0 {
        assert((a + rest).first() == a[0]);
        assert((a + rest).drop_first() =~= a.drop_first() + rest);
        lemma_trimmed_start(a.drop_first(), rest, drop);
    } else {
        assert(a + rest =~= rest);
    }
}

proof fn lemma_trimmed_end(rest: Seq<char>, b: Seq<char>, drop: spec_fn(char) -> bool)
    requires
        forall|i: int| 0 <= i < b.len() ==> drop(#[trigger] b[i]),
        rest.len() > 0 ==> !drop(rest.last()),
    ensures
        trimmed_end(rest + b, drop) == rest,
    decreases b.len(),
{
    if b.len() > 0 {
        assert((rest + b).last() == b.last());
        assert((rest + b).drop_last() =~= rest + b.drop_last());
        lemma_trimmed_end(rest, b.drop_last(), drop);
    } else {
        assert(rest + b =~= rest);
    }
}

proof fn lemma_trimmed_both(
    a: Seq<char>,
    mid: Seq<char>,
    b: Seq<char>,
    drop: spec_fn(char) -> bool,
)
    requires
        forall|i: int| 0 <= i < a.len() ==> drop(#[trigger] a[i]),
        forall|i: int| 0 <= i < b.len() ==> drop(#[trigger] b[i]),
        mid.len() > 0 ==> !drop(mid.first()) && !drop(mid.last()),
    ensures
        trimmed_end(trimmed_start(a + mid + b, drop), drop) == mid,
{
    if mid.len() > 0 {
        assert(a + mid + b =~= a + (mid + b));
        assert((mid + b).first() == mid.first());
        lemma_trimmed_start(a, mid + b, drop);
        lemma_trimmed_end(mid, b, drop);
    } else {
        let all = a + mid + b;
        assert(all =~= all + mid);
        assert forall|i: int| 0 <= i < all.len() implies drop(#[trigger] all[i]) by {
            if i >= a.len() {
                assert(all[i] == b[i - a.len()]);
            }
        }
        lemma_trimmed_start(all, mid, drop);
        assert(mid =~= mid + mid);
        lemma_trimmed_end(mid, mid, drop);
    }
}

/// White space around a text is taken away, and nothing else.
pub proof fn law_white_space_is_trimmed(a: Seq<char>, mid: Seq<char>, b: Seq<char>)
    requires
        forall|i: int| 0 <= i < a.len() ==> is_white_space(#[trigger] a[i]),
        forall|i: int| 0 <= i < b.len() ==> is_white_space(#[trigger] b[i]),
        mid.len() > 0 ==> !is_white_space(mid.first()) && !is_white_space(mid.last()),
    ensures
        trimmed(a + mid + b) == mid,
{
    lemma_trimmed_both(a, mid, b, |c: char| is_white_space(c));
}

/// The characters `c` around a text are taken away, and nothing else.
pub proof fn law_character_is_trimmed(a: Seq<char>, mid: Seq<char>, b: Seq<char>, c: char)
    requires
        forall|i: int| 0 <= i < a.len() ==> #[trigger] a[i] == c,
        forall|i: int| 0 <= i < b.len() ==> #[trigger] b[i] == c,
        mid.len() > 0 ==> mid.first() != c && mid.last() != c,
    ensures
        trimmed_of(a + mid + b, c) == mid,
{
    lemma_trimmed_both(a, mid, b, same_as(c));
}

/// Of every text something is left between the white space at its two ends, and
/// that begins and ends with no white space.
pub proof fn law_trimmed_leaves_the_middle(s: Seq<char>) -> (cut: (int, int))
    ensures
        0 <= cut.0 <= cut.1 <= s.len(),
        trimmed(s) == s.subrange(cut.0, cut.1),
        forall|i: int| 0 <= i < cut.0 || cut.1 <= i < s.len() ==> is_white_space(#[trigger] s[i]),
        trimmed(s).len() > 0 ==> !is_white_space(trimmed(s).first()) && !is_white_space(
            trimmed(s).last(),
        ),
{
    let from = lemma_leading(s, 0);
    let rest = s.skip(from);
    let to = lemma_trailing(rest, rest.len() as int);
    let mid = rest.take(to);
    let a = s.take(from);
    let b = rest.skip(to);
    assert(s =~= a + mid + b);
    if mid.len() > 0 {
        assert(mid.first() == s[from]);
        assert(mid.last() == rest[to - 1]);
    }
    assert forall|i: int| 0 <= i < b.len() implies is_white_space(#[trigger] b[i]) by {
        assert(b[i] == rest[to + i]);
    }
    law_white_space_is_trimmed(a, mid, b);
    assert(mid =~= s.subrange(from, from + to));
    assert forall|i: int| 0 <= i < from || from + to <= i < s.len() implies is_white_space(
        #[trigger] s[i],
    ) by {
        if i >= from {
            assert(s[i] == rest[i - from]);
        }
    }
    (from, from + to)
}

proof fn lemma_leading(s: Seq<char>, from: int) -> (r: int)
    requires
        0 <= from <= s.len(),
        forall|i: int| 0 <= i < from ==> is_white_space(#[trigger] s[i]),
    ensures
        0 <= r <= s.len(),
        forall|i: int| 0 <= i < r ==> is_white_space(#[trigger] s[i]),
        r < s.len() ==> !is_white_space(s[r]),
    decreases s.len() - from,
{
    if from < s.len() && is_white_space(s[from]) {
        lemma_leading(s, from + 1)
    } else {
        from
    }
}

proof fn lemma_trailing(s: Seq<char>, to: int) -> (r: int)
    requires
        0 <= to <= s.len(),
        forall|i: int| to <= i < s.len() ==> is_white_space(#[trigger] s[i]),
    ensures
        0 <= r <= s.len(),
        forall|i: int| r <= i < s.len() ==> is_white_space(#[trigger] s[i]),
        r > 0 ==> !is_white_space(s[r - 1]),
    decreases to,
{
    if to > 0 && is_white_space(s[to - 1]) {
        lemma_trailing(s, to - 1)
    } else {
        to
    }
}

/// No visible ASCII character is white space; the blank, the tab and the
/// characters that end a line are.
pub proof fn law_visible_is_not_white_space(c: char)
    ensures
        '!' <= c <= '~' ==> !is_white_space(c),
        c == ' ' || c == '\t' || c == '\n' || c == '\r' ==> is_white_space(c),
{
}

/// Texts are ordered as in a dictionary: a common beginning does not count, then
/// the smaller character decides, and a text comes before its continuations.
pub proof fn law_text_order_is_by_characters(
    common: Seq<char>,
    x: char,
    a: Seq<char>,
    y: char,
    b: Seq<char>,
)
    ensures
        text_le(common, common + a),
        a.len() > 0 ==> !text_le(common + a, common),
        x < y ==> text_le(common.push(x) + a, common.push(y) + b) && !text_le(
            common.push(y) + b,
            common.push(x) + a,
        ),
    decreases common.len(),
{
    if common.len() > 0 {
        let rest = common.drop_first();
        law_text_order_is_by_characters(rest, x, a, y, b);
        assert((common + a).drop_first() =~= rest + a);
        assert((common.push(x) + a).drop_first() =~= rest.push(x) + a);
        assert((common.push(y) + b).drop_first() =~= rest.push(y) + b);
    }
}

/// A number is written by one decimal digit or more, with nothing else but one
/// `+` in front; each digit counts ten times the next.
pub proof fn law_number_is_by_digits(s: Seq<char>, d: char)
    ensures
        number(s) is Some ==> s.len() > 0 && forall|i: int|
            0 <= i < s.len() ==> '0' <= #[trigger] s[i] <= '9' || (i == 0 && s[i] == '+' && s.len()
                > 1),
        s.len() > 0 && (forall|i: int| 0 <= i < s.len() ==> '0' <= #[trigger] s[i] <= '9')
            ==> number(s) is Some && number("+"@ + s) == number(s),
        '0' <= d <= '9' ==> number(seq![d]) == Some((d as nat - '0' as nat) as nat),
        '0' <= d <= '9' && number(s) is Some ==> number(s.push(d)) == Some(
            10 * number(s)->0 + (d as nat - '0' as nat) as nat,
        ),
{
    reveal_strlit("+");
    reveal_with_fuel(digits_value, 2);
    let plus = "+"@ + s;
    assert(plus.drop_first() =~= s);
    if number(s) is Some {
        let digits = if s.first() == '+' { s.drop_first() } else { s };
        assert forall|i: int| 0 <= i < s.len() implies '0' <= #[trigger] s[i] <= '9' || (i == 0
            && s[i] == '+' && s.len() > 1) by {
            if s.first() == '+' && i > 0 {
                assert(digits[i - 1] == s[i]);
                assert(is_digit(digits[i - 1]));
            } else if s.first() != '+' {
                assert(is_digit(digits[i]));
            }
        }
        if '0' <= d <= '9' {
            let t = s.push(d);
            let more = if t.first() == '+' { t.drop_first() } else { t };
            assert(more =~= digits.push(d));
            assert(more.drop_last() =~= digits);
            assert(all_digits(more)) by {
                assert forall|i: int| 0 <= i < more.len() implies is_digit(#[trigger] more[i]) by {
                    if i < digits.len() {
                        assert(is_digit(digits[i]));
                    }
                }
            }
        }
    }
    if s.len() > 0 && (forall|i: int| 0 <= i < s.len() ==> '0' <= #[trigger] s[i] <= '9') {
        assert('0' <= s[0] <= '9');
        assert(all_digits(s));
    }
    if '0' <= d <= '9' {
        assert(seq![d].drop_last() =~= Seq::<char>::empty());
        assert(all_digits(seq![d]));
    }
}

/// Lines are joined in their order, with `between` between two that follow each
/// other and nowhere else.
pub proof fn law_lines_are_joined(a: Seq<Seq<char>>, line: Seq<char>, b: Seq<Seq<char>>, between: Seq<char>)
    ensures
        joined_lines(Seq::empty(), between) == Seq::<char>::empty(),
        joined_lines(seq![line], between) == line,
        a.len() > 0 && b.len() > 0 ==> joined_lines(a + b, between) == joined_lines(a, between)
            + between + joined_lines(b, between),
    decreases b.len(),
{
    if a.len() > 0 && b.len() > 0 {
        assert((a + b).drop_last() =~= a + b.drop_last());
        assert((a + b).last() == b.last());
        if b.len() == 1 {
            assert(a + b.drop_last() =~= a);
        } else {
            law_lines_are_joined(a, line, b.drop_last(), between);
            assert(joined_lines(a + b, between) =~= joined_lines(a, between) + between
                + joined_lines(b, between));
        }
    }
}

/// The texts of some strings are those of each, in their order, and a string
/// that may be missing has a text where it is there.
pub proof fn law_texts_are_of_each(strings: Seq<String>, i: int, s: Option<String>)
    ensures
        texts(strings).len() == strings.len(),
        0 <= i < strings.len() ==> texts(strings)[i] == strings[i]@,
        s is None <==> text_of(s) is None,
        s matches Some(t) ==> text_of(s) == Some(t@),
{
}

/// White space is what Unicode lists under `White_Space`, by code point.
pub proof fn law_white_space_by_code_point(c: char)
    ensures
        is_white_space(c) <==> {
            let n = c as int;
            ||| 0x9 <= n <= 0xd
            ||| n == 0x20
            ||| n == 0x85
            ||| n == 0xa0
            ||| n == 0x1680
            ||| 0x2000 <= n <= 0x200a
            ||| 0x2028 <= n <= 0x2029
            ||| n == 0x202f
            ||| n == 0x205f
            ||| n == 0x3000
        },
{
}

} // verus!
