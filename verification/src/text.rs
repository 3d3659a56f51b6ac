//! Character-level text handling, stated over `Seq<char>`.

use vstd::prelude::*;
use vstd::slice::slice_subrange;
use vstd::string::*;

verus! {

/// `String::push` appends one character to the end of the string.
pub assume_specification[ String::push ](s: &mut String, c: char)
    ensures
        final(s)@ == old(s)@.push(c),
;

/// Whether `pat` stands in `s` at position `at`.
pub open spec fn occurs_at(s: Seq<char>, pat: Seq<char>, at: int) -> bool {
    0 <= at && at + pat.len() <= s.len() && s.subrange(at, at + pat.len()) == pat
}

/// Whether `s` begins with `pat`.
pub open spec fn begins_with(s: Seq<char>, pat: Seq<char>) -> bool {
    occurs_at(s, pat, 0)
}

/// The least position from `from` on at which `pat` stands in `s`.
pub open spec fn find_from(s: Seq<char>, pat: Seq<char>, from: int) -> Option<int>
    decreases s.len() + 1 - from,
{
    if from < 0 || from + pat.len() > s.len() {
        None
    } else if occurs_at(s, pat, from) {
        Some(from)
    } else {
        find_from(s, pat, from + 1)
    }
}

/// The first position at which `pat` stands in `s`.
pub open spec fn find(s: Seq<char>, pat: Seq<char>) -> Option<int> {
    find_from(s, pat, 0)
}

/// `s` without the copies of `pat` that it begins with.
pub open spec fn without_prefixes(s: Seq<char>, pat: Seq<char>) -> Seq<char>
    decreases s.len(),
{
    if pat.len() > 0 && begins_with(s, pat) {
        without_prefixes(s.skip(pat.len() as int), pat)
    } else {
        s
    }
}

/// `s` without a carriage return at its end.
pub open spec fn without_return(s: Seq<char>) -> Seq<char> {
    if s.len() > 0 && s.last() == '\r' {
        s.drop_last()
    } else {
        s
    }
}

/// The lines of `s`: a line ends with a line feed, and a carriage return right before that line
/// feed belongs to the line ending. What follows the last line feed is a line unless it is empty.
pub open spec fn lines(s: Seq<char>) -> Seq<Seq<char>>
    decreases s.len(),
    via lines_shrink
{
    if s.len() == 0 {
        seq![]
    } else {
        match find(s, seq!['\n']) {
            None => seq![s],
            Some(k) => seq![without_return(s.take(k))] + lines(s.skip(k + 1)),
        }
    }
}

#[via_fn]
proof fn lines_shrink(s: Seq<char>) {
    lemma_find_from(s, seq!['\n'], 0);
}

/// `find_from` gives the least position, if there is one.
pub proof fn lemma_find_from(s: Seq<char>, pat: Seq<char>, from: int)
    requires
        0 <= from,
    ensures
        match find_from(s, pat, from) {
            Some(k) => {
                &&& from <= k
                &&& occurs_at(s, pat, k)
                &&& forall|i: int| from <= i < k ==> !occurs_at(s, pat, i)
            },
            None => forall|i: int| from <= i ==> !occurs_at(s, pat, i),
        },
    decreases s.len() + 1 - from,
{
    if from + pat.len() <= s.len() && !occurs_at(s, pat, from) {
        lemma_find_from(s, pat, from + 1);
    }
}

/// The character of a decimal digit.
pub open spec fn digit(d: int) -> char {
    (48 + d) as char
}

/// A number in decimal, without leading zeros.
pub open spec fn decimal(n: nat) -> Seq<char>
    decreases n,
{
    if n < 10 {
        seq![digit(n as int)]
    } else {
        decimal(n / 10).push(digit((n % 10) as int))
    }
}

/// A number below one hundred in decimal, with two digits.
pub open spec fn two_digits(n: int) -> Seq<char> {
    seq![digit(n / 10), digit(n % 10)]
}

/// A number in decimal consists of digits, at least one.
pub proof fn law_decimal_digits(n: nat)
    ensures
        decimal(n).len() >= 1,
        forall|i: int| 0 <= i < decimal(n).len() ==> '0' <= #[trigger] decimal(n)[i] <= '9',
    decreases n,
{
    if n >= 10 {
        law_decimal_digits(n / 10);
        let front = decimal(n / 10);
        assert forall|i: int| 0 <= i < decimal(n).len() implies '0' <= #[trigger] decimal(n)[i]
            <= '9' by {
            assert(i < front.len() ==> '0' <= front[i] <= '9');
        }
    }
}

/// Different numbers are written differently in decimal.
pub proof fn law_decimal_injective(a: nat, b: nat)
    requires
        decimal(a) == decimal(b),
    ensures
        a == b,
    decreases a,
{
    law_decimal_digits(a / 10);
    law_decimal_digits(b / 10);
    assert(decimal(a).last() == digit((a % 10) as int));
    assert(decimal(b).last() == digit((b % 10) as int));
    assert(a % 10 == b % 10);
    if a >= 10 && b >= 10 {
        assert(decimal(a).drop_last() == decimal(a / 10));
        assert(decimal(b).drop_last() == decimal(b / 10));
        law_decimal_injective(a / 10, b / 10);
    }
}

/// The lower-case form of an ASCII letter; any other character is unchanged.
pub open spec fn ascii_lower(c: char) -> char {
    if 'A' <= c && c <= 'Z' {
        (c as int + 32) as char
    } else {
        c
    }
}

/// Equality that ignores the case of ASCII letters.
pub open spec fn same_ignoring_ascii_case(a: Seq<char>, b: Seq<char>) -> bool {
    a.len() == b.len() && forall|i: int|
        0 <= i < a.len() ==> ascii_lower(#[trigger] a[i]) == ascii_lower(b[i])
}

/// Equality that ignores the case of ASCII letters is an equivalence.
pub proof fn law_ignoring_case_is_equivalence(a: Seq<char>, b: Seq<char>, c: Seq<char>)
    ensures
        same_ignoring_ascii_case(a, a),
        same_ignoring_ascii_case(a, b) ==> same_ignoring_ascii_case(b, a),
        same_ignoring_ascii_case(a, b) && same_ignoring_ascii_case(b, c)
            ==> same_ignoring_ascii_case(a, c),
{
    if same_ignoring_ascii_case(a, b) {
        assert forall|i: int| 0 <= i < b.len() implies ascii_lower(#[trigger] b[i]) == ascii_lower(
            a[i],
        ) by {
            assert(ascii_lower(a[i]) == ascii_lower(b[i]));
        }
    }
    if same_ignoring_ascii_case(a, b) && same_ignoring_ascii_case(b, c) {
        assert forall|i: int| 0 <= i < a.len() implies ascii_lower(#[trigger] a[i]) == ascii_lower(
            c[i],
        ) by {
            assert(ascii_lower(a[i]) == ascii_lower(b[i]));
            assert(ascii_lower(b[i]) == ascii_lower(c[i]));
        }
    }
}

/// Lines written one after the other, each followed by the same ending.
pub open spec fn written(lines: Seq<Seq<char>>, ending: Seq<char>) -> Seq<char>
    decreases lines.len(),
{
    if lines.len() == 0 {
        seq![]
    } else {
        lines[0] + ending + written(lines.skip(1), ending)
    }
}

/// Lines that hold no line feed and do not end with a carriage return are read back as they were
/// written, with a line feed or with a carriage return and a line feed at the end of each.
pub proof fn law_lines_read_back(ls: Seq<Seq<char>>, ending: Seq<char>)
    requires
        ending == seq!['\n'] || ending == seq!['\r', '\n'],
        forall|i: int, j: int|
            0 <= i < ls.len() && 0 <= j < ls[i].len() ==> #[trigger] ls[i][j] != '\n',
        forall|i: int|
            0 <= i < ls.len() && (#[trigger] ls[i]).len() > 0 ==> ls[i].last() != '\r',
    ensures
        lines(written(ls, ending)) == ls,
    decreases ls.len(),
{
    let text = written(ls, ending);
    if ls.len() > 0 {
        let rest = written(ls.skip(1), ending);
        let feed = ls[0].len() + ending.len() - 1;
        let pat = seq!['\n'];
        lemma_find_from(text, pat, 0);
        assert(text == ls[0] + ending + rest);
        assert(text[feed] == '\n');
        assert(text.subrange(feed, feed + 1) == pat);
        assert(occurs_at(text, pat, feed));
        let k = find(text, pat)->0;
        assert(find(text, pat) is Some);
        assert(text.subrange(k, k + 1)[0] == '\n');
        assert(k == feed) by {
            if k < ls[0].len() {
                assert(text[k] == ls[0][k]);
            }
        }
        assert(text.skip(feed + 1) == rest);
        if ending == pat {
            assert(text.take(feed) == ls[0]);
        } else {
            assert(text.take(feed).drop_last() == ls[0]);
            assert(text.take(feed).last() == '\r');
        }
        assert(without_return(text.take(feed)) == ls[0]);
        assert forall|i: int, j: int|
            0 <= i < ls.skip(1).len() && 0 <= j < ls.skip(1)[i].len() implies #[trigger] ls.skip(
            1,
        )[i][j] != '\n' by {
            assert(ls[i + 1][j] != '\n');
        }
        assert forall|i: int|
            0 <= i < ls.skip(1).len() && (#[trigger] ls.skip(1)[i]).len() > 0 implies ls.skip(
            1,
        )[i].last() != '\r' by {
            assert(ls[i + 1].len() > 0);
        }
        law_lines_read_back(ls.skip(1), ending);
        assert(seq![ls[0]] + ls.skip(1) == ls);
    }
}

/// A text that is empty or ends with a line feed can be read apart from what follows it.
pub proof fn law_lines_concat(a: Seq<char>, b: Seq<char>)
    requires
        a.len() == 0 || a.last() == '\n',
    ensures
        lines(a + b) == lines(a) + lines(b),
    decreases a.len(),
{
    if a.len() == 0 {
        assert(a + b == b);
        assert(lines(a) + lines(b) == lines(b));
    } else {
        let pat = seq!['\n'];
        let all = a + b;
        lemma_find_from(a, pat, 0);
        lemma_find_from(all, pat, 0);
        assert(a.subrange(a.len() - 1, a.len() as int) == pat);
        assert(occurs_at(a, pat, a.len() - 1));
        let k = find(a, pat)->0;
        assert(all.subrange(k, k + 1) == a.subrange(k, k + 1));
        assert(occurs_at(all, pat, k));
        let n = find(all, pat)->0;
        assert(all.subrange(n, n + 1) == a.subrange(n, n + 1));
        assert(occurs_at(a, pat, n));
        assert(n == k);
        let rest = a.skip(k + 1);
        law_lines_concat(rest, b);
        assert(all.take(k) == a.take(k));
        assert(all.skip(k + 1) == rest + b);
        let first = seq![without_return(a.take(k))];
        assert(first + (lines(rest) + lines(b)) == (first + lines(rest)) + lines(b));
    }
}

/// A text without a line feed, followed by one, is one line.
pub proof fn law_one_line(line: Seq<char>)
    requires
        !line.contains('\n'),
    ensures
        lines(line.push('\n')) == seq![without_return(line)],
{
    let pat = seq!['\n'];
    let text = line.push('\n');
    let size = line.len() as int;
    lemma_find_from(text, pat, 0);
    assert(text.subrange(size, size + 1) == pat);
    assert(occurs_at(text, pat, size));
    let k = find(text, pat)->0;
    assert(text.subrange(k, k + 1)[0] == '\n');
    assert(k < size ==> line[k] == '\n');
    assert(text.take(size) == line);
    assert(text.skip(size + 1) == Seq::<char>::empty());
    assert(lines(text.skip(size + 1)) == Seq::<Seq<char>>::empty());
}

/// A text stands where it was put, and where it stands it can be cut out.
pub proof fn law_occurs_at(
    before: Seq<char>,
    pat: Seq<char>,
    after: Seq<char>,
    s: Seq<char>,
    at: int,
)
    ensures
        occurs_at(before + pat + after, pat, before.len() as int),
        occurs_at(s, pat, at) <==> 0 <= at <= s.len() - pat.len() && s == s.take(at) + pat + s.skip(
            at + pat.len(),
        ),
{
    let whole = before + pat + after;
    assert(whole.subrange(before.len() as int, (before.len() + pat.len()) as int) == pat);
    if 0 <= at <= s.len() - pat.len() {
        if occurs_at(s, pat, at) {
            assert(s == s.take(at) + s.subrange(at, at + pat.len()) + s.skip(at + pat.len()));
        }
        if s == s.take(at) + pat + s.skip(at + pat.len()) {
            let cut = s.take(at) + pat + s.skip(at + pat.len());
            assert(cut.subrange(at, at + pat.len()) == pat);
        }
    }
}

/// A text begins with another exactly if it is that other one and something after it.
pub proof fn law_begins_with(pat: Seq<char>, rest: Seq<char>, s: Seq<char>)
    ensures
        begins_with(pat + rest, pat),
        begins_with(s, pat) <==> exists|tail: Seq<char>| s == pat + tail,
        begins_with(s, pat) ==> s == pat + s.skip(pat.len() as int),
{
    law_occurs_at(seq![], pat, rest, s, 0);
    assert(Seq::<char>::empty() + pat + rest == pat + rest);
    if begins_with(s, pat) {
        assert(s.take(0) + pat + s.skip(pat.len() as int) == pat + s.skip(pat.len() as int));
        assert(s == pat + s.skip(pat.len() as int));
    }
    if exists|tail: Seq<char>| s == pat + tail {
        let tail = choose|tail: Seq<char>| s == pat + tail;
        assert((pat + tail).subrange(0, pat.len() as int) == pat);
    }
}

/// A text is found where it stands first, and not found exactly if it stands nowhere.
pub proof fn law_find_first(s: Seq<char>, pat: Seq<char>, at: int)
    ensures
        find(s, pat) == Some(at) <==> occurs_at(s, pat, at) && forall|i: int|
            0 <= i < at ==> !occurs_at(s, pat, i),
        find(s, pat) is None <==> forall|i: int| !occurs_at(s, pat, i),
{
    lemma_find_from(s, pat, 0);
    if find(s, pat) is Some {
        let k = find(s, pat)->0;
        assert(occurs_at(s, pat, k));
        if occurs_at(s, pat, at) && forall|i: int| 0 <= i < at ==> !occurs_at(s, pat, i) {
            assert(at == k);
        }
    }
}

/// One copy of a prefix after the other is removed, and nothing else.
pub proof fn law_prefixes_removed(s: Seq<char>, pat: Seq<char>)
    requires
        pat.len() > 0,
    ensures
        without_prefixes(pat + s, pat) == without_prefixes(s, pat),
        !begins_with(s, pat) ==> without_prefixes(s, pat) == s,
{
    law_begins_with(pat, s, s);
    assert((pat + s).skip(pat.len() as int) == s);
}

/// At most one carriage return is removed, and only from the end.
pub proof fn law_return_removed(s: Seq<char>)
    ensures
        without_return(s.push('\r')) == s,
        s.len() == 0 || s.last() != '\r' ==> without_return(s) == s,
{
    assert(s.push('\r').drop_last() == s);
}

/// A text that is not empty and holds no line feed is one line, even if it ends with a carriage
/// return; the empty text has no line.
pub proof fn law_unended_line(line: Seq<char>)
    requires
        !line.contains('\n'),
    ensures
        line.len() > 0 ==> lines(line) == seq![line],
        lines(Seq::<char>::empty()).len() == 0,
{
    let pat = seq!['\n'];
    lemma_find_from(line, pat, 0);
    if let Some(k) = find(line, pat) {
        assert(line.subrange(k, k + 1)[0] == '\n');
        assert(line[k] == '\n');
    }
}

/// The number that decimal digits stand for.
pub open spec fn numeral(s: Seq<char>) -> int
    decreases s.len(),
{
    if s.len() == 0 {
        0
    } else {
        10 * numeral(s.drop_last()) + (s.last() as int - 48)
    }
}

/// A number in decimal can be read back, and has no leading zero.
pub proof fn law_decimal_reads_back(n: nat)
    ensures
        numeral(decimal(n)) == n,
        n > 0 ==> decimal(n)[0] != '0',
        n < 10 ==> decimal(n).len() == 1,
    decreases n,
{
    reveal_with_fuel(numeral, 2);
    if n >= 10 {
        law_decimal_reads_back(n / 10);
        law_decimal_digits(n / 10);
        assert(decimal(n).drop_last() == decimal(n / 10));
    }
}

/// Two digits can be read back.
pub proof fn law_two_digits_read_back(n: int)
    requires
        0 <= n < 100,
    ensures
        two_digits(n).len() == 2,
        numeral(two_digits(n)) == n,
        '0' <= two_digits(n)[0] <= '9',
        '0' <= two_digits(n)[1] <= '9',
{
    reveal_with_fuel(numeral, 3);
    assert(two_digits(n).drop_last() == seq![digit(n / 10)]);
    assert(two_digits(n).drop_last().drop_last() == Seq::<char>::empty());
}

/// Two texts are the same up to the case of ASCII letters exactly if they are equally long and
/// each character is the same in both or is an ASCII letter in the one case here and in the other
/// case there.
pub proof fn law_same_ignoring_case(a: Seq<char>, b: Seq<char>)
    ensures
        same_ignoring_ascii_case(a, b) <==> a.len() == b.len() && forall|i: int|
            0 <= i < a.len() ==> {
                ||| (#[trigger] a[i]) == b[i]
                ||| 'A' <= a[i] <= 'Z' && b[i] as int == a[i] as int + 32
                ||| 'A' <= b[i] <= 'Z' && a[i] as int == b[i] as int + 32
            },
{
    if a.len() == b.len() {
        assert forall|i: int| 0 <= i < a.len() implies (ascii_lower(#[trigger] a[i]) == ascii_lower(
            b[i],
        ) <==> {
            ||| a[i] == b[i]
            ||| 'A' <= a[i] <= 'Z' && b[i] as int == a[i] as int + 32
            ||| 'A' <= b[i] <= 'Z' && a[i] as int == b[i] as int + 32
        }) by {
            if 'A' <= a[i] <= 'Z' {
                assert((a[i] as int + 32) as char as int == a[i] as int + 32);
            }
            if 'A' <= b[i] <= 'Z' {
                assert((b[i] as int + 32) as char as int == b[i] as int + 32);
            }
        }
        if same_ignoring_ascii_case(a, b) {
            assert forall|i: int| 0 <= i < a.len() implies {
                ||| (#[trigger] a[i]) == b[i]
                ||| 'A' <= a[i] <= 'Z' && b[i] as int == a[i] as int + 32
                ||| 'A' <= b[i] <= 'Z' && a[i] as int == b[i] as int + 32
            } by {
                assert(ascii_lower(a[i]) == ascii_lower(b[i]));
            }
        }
    }
}

/// Whether no two of the named entries share a name.
pub open spec fn distinct_names<T>(entries: Seq<(Seq<char>, T)>) -> bool {
    forall|i: int, j: int|
        #![trigger entries[i], entries[j]]
        0 <= i < j < entries.len() ==> entries[i].0 != entries[j].0
}

/// The characters of a string.
pub fn chars_of(s: &str) -> (r: Vec<char>)
    ensures
        r@ == s@,
{
    let mut out: Vec<char> = Vec::new();
    for c in it: s.chars()
        invariant
            it.seq() == s@,
            out@ == s@.take(it.index() as int),
    {
        out.push(c);
        assert(s@.take(it.index() + 1) == s@.take(it.index() as int).push(c));
    }
    assert(s@.take(s@.len() as int) == s@);
    out
}

/// The string of a run of characters.
pub fn string_of(s: &[char]) -> (r: String)
    ensures
        r@ == s@,
{
    let mut out = String::new();
    let mut i: usize = 0;
    while i < s.len()
        invariant
            i <= s@.len(),
            out@ == s@.take(i as int),
        decreases s@.len() - i,
    {
        out.push(s[i]);
        assert(s@.take(i + 1) == s@.take(i as int).push(s@[i as int]));
        i += 1;
    }
    assert(s@.take(s@.len() as int) == s@);
    out
}

/// Whether two strings hold the same characters.
pub fn same_text(a: &str, b: &str) -> (r: bool)
    ensures
        r == (a@ == b@),
{
    let x = a.to_owned();
    let y = b.to_owned();
    x == y
}

/// Whether `s` holds `pat` at position `at`.
pub fn holds_at(s: &[char], pat: &[char], at: usize) -> (r: bool)
    requires
        at <= s@.len(),
    ensures
        r == occurs_at(s@, pat@, at as int),
{
    if s.len() - at < pat.len() {
        return false;
    }
    let size: usize = s.len();
    let mut i: usize = 0;
    while i < pat.len()
        invariant
            i <= pat@.len(),
            at + pat@.len() <= s@.len(),
            size == s@.len(),
            forall|j: int| 0 <= j < i ==> s@[at + j] == pat@[j],
        decreases pat@.len() - i,
    {
        if s[at + i] != pat[i] {
            proof {
                if s@.subrange(at as int, at + pat@.len()) == pat@ {
                    assert(s@.subrange(at as int, at + pat@.len())[i as int] == pat@[i as int]);
                }
            }
            return false;
        }
        i += 1;
    }
    assert(s@.subrange(at as int, at + pat@.len()) == pat@);
    true
}

/// The first position at which `pat` stands in `s`.
pub fn position(s: &[char], pat: &[char]) -> (r: Option<usize>)
    ensures
        match find(s@, pat@) {
            Some(k) => r == Some(k as usize) && k + pat@.len() <= s@.len(),
            None => r is None,
        },
{
    let mut i: usize = 0;
    loop
        invariant
            i <= s@.len(),
            find(s@, pat@) == find_from(s@, pat@, i as int),
        decreases s@.len() - i,
    {
        if s.len() - i < pat.len() {
            return None;
        }
        if holds_at(s, pat, i) {
            return Some(i);
        }
        if i == s.len() {
            assert(find_from(s@, pat@, i + 1) is None);
            return None;
        }
        i += 1;
    }
}

/// Removes every copy of a prefix from the front.
pub fn strip_prefixes<'a>(s: &'a [char], pat: &[char]) -> (r: &'a [char])
    requires
        pat@.len() > 0,
    ensures
        r@ == without_prefixes(s@, pat@),
{
    let size: usize = s.len();
    let mut at: usize = 0;
    assert(s@.skip(0) == s@);
    while holds_at(s, pat, at)
        invariant
            pat@.len() > 0,
            at <= s@.len(),
            size == s@.len(),
            without_prefixes(s@, pat@) == without_prefixes(s@.skip(at as int), pat@),
        decreases s@.len() - at,
    {
        let ghost rest = s@.skip(at as int);
        proof {
            assert(rest.subrange(0, pat@.len() as int) == s@.subrange(at as int, at + pat@.len()));
            assert(rest.skip(pat@.len() as int) == s@.skip(at + pat@.len()));
        }
        at += pat.len();
    }
    proof {
        let rest = s@.skip(at as int);
        if begins_with(rest, pat@) {
            assert(rest.subrange(0, pat@.len() as int) == s@.subrange(at as int, at + pat@.len()));
        }
        assert(rest == s@.subrange(at as int, s@.len() as int));
    }
    slice_subrange(s, at, s.len())
}

/// Appends a number in decimal.
pub fn push_decimal(out: &mut String, n: u64)
    ensures
        final(out)@ == old(out)@ + decimal(n as nat),
{
    let mut digits: Vec<char> = Vec::new();
    let mut rest: u64 = n;
    let ghost mut tail: Seq<char> = seq![];
    assert(decimal(n as nat) == decimal(rest as nat) + tail);
    while rest >= 10
        invariant
            decimal(n as nat) == decimal(rest as nat) + tail,
            digits@ == tail.reverse(),
        decreases rest,
    {
        let d: u8 = (rest % 10) as u8;
        let ghost before = tail;
        proof {
            tail = seq![digit(d as int)] + tail;
            assert(decimal(rest as nat) == decimal((rest / 10) as nat).push(digit(d as int)));
            assert(decimal((rest / 10) as nat).push(digit(d as int)) + before
                == decimal((rest / 10) as nat) + tail);
            assert(before.reverse().push(digit(d as int)) == tail.reverse());
        }
        digits.push((48 + d) as char);
        rest = rest / 10;
    }
    out.push((48 + rest as u8) as char);
    let ghost lead = old(out)@.push(digit(rest as int));
    let mut i: usize = digits.len();
    assert(out@ == lead + tail.take(0));
    while i > 0
        invariant
            i <= digits@.len(),
            digits@ == tail.reverse(),
            out@ == lead + tail.take(digits@.len() - i),
        decreases i,
    {
        i -= 1;
        let ghost k: int = digits@.len() - i;
        assert(tail.take(k) == tail.take(k - 1).push(tail[k - 1]));
        out.push(digits[i]);
        assert(lead + tail.take(k - 1).push(tail[k - 1]) == (lead + tail.take(k - 1)).push(
            tail[k - 1],
        ));
    }
    assert(tail.take(digits@.len() as int) == tail);
    assert(lead + tail == old(out)@ + (decimal(rest as nat) + tail));
}

/// Whether two strings are equal when the case of ASCII letters is ignored.
pub fn equals_ignoring_ascii_case(a: &str, b: &str) -> (r: bool)
    ensures
        r == same_ignoring_ascii_case(a@, b@),
{
    let x: Vec<char> = chars_of(a);
    let y: Vec<char> = chars_of(b);
    if x.len() != y.len() {
        return false;
    }
    let mut i: usize = 0;
    while i < x.len()
        invariant
            i <= x@.len(),
            x@ == a@,
            y@ == b@,
            x@.len() == y@.len(),
            forall|j: int| 0 <= j < i ==> ascii_lower(#[trigger] a@[j]) == ascii_lower(b@[j]),
        decreases x@.len() - i,
    {
        if lower(x[i]) != lower(y[i]) {
            assert(ascii_lower(a@[i as int]) != ascii_lower(b@[i as int]));
            return false;
        }
        i += 1;
    }
    true
}

/// The lower-case form of an ASCII letter.
fn lower(c: char) -> (r: char)
    ensures
        r == ascii_lower(c),
{
    if 'A' <= c && c <= 'Z' {
        let code: u32 = c as u32;
        (code as u8 + 32) as char
    } else {
        c
    }
}

} // verus!
