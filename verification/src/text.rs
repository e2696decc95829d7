//! Character-level text operations on shader source: whitespace, trimming,
//! searching, substrings and decimal numbers, each with its specification
//! over sequences of characters.

use vstd::prelude::*;

verus! {

broadcast use vstd::string::group_string_axioms;

/// The characters that have the Unicode `White_Space` property.
pub open spec fn is_white_space(c: char) -> bool {
    let u = c as u32;
    ||| 0x09 <= u <= 0x0D
    ||| u == 0x20
    ||| u == 0x85
    ||| u == 0xA0
    ||| u == 0x1680
    ||| 0x2000 <= u <= 0x200A
    ||| u == 0x2028
    ||| u == 0x2029
    ||| u == 0x202F
    ||| u == 0x205F
    ||| u == 0x3000
}

/// Whether `c` is white space in the sense of `char::is_whitespace`.
pub fn is_whitespace(c: char) -> (r: bool)
    ensures
        r == is_white_space(c),
{
    let u = c as u32;
    (0x09 <= u && u <= 0x0D) || u == 0x20 || u == 0x85 || u == 0xA0 || u == 0x1680 || (0x2000 <= u
        && u <= 0x200A) || u == 0x2028 || u == 0x2029 || u == 0x202F || u == 0x205F || u == 0x3000
}

/// `s` with its leading white space removed.
pub open spec fn trim_start_of(s: Seq<char>) -> Seq<char>
    decreases s.len(),
{
    if s.len() > 0 && is_white_space(s[0]) {
        trim_start_of(s.drop_first())
    } else {
        s
    }
}

/// `s` with its trailing white space removed.
pub open spec fn trim_end_of(s: Seq<char>) -> Seq<char>
    decreases s.len(),
{
    if s.len() > 0 && is_white_space(s.last()) {
        trim_end_of(s.drop_last())
    } else {
        s
    }
}

/// `s` with its leading and trailing white space removed, as `str::trim` does.
pub open spec fn trim_of(s: Seq<char>) -> Seq<char> {
    trim_end_of(trim_start_of(s))
}

/// Whether `pat` occurs in `s` starting at position `i`.
pub open spec fn occurs_at(s: Seq<char>, pat: Seq<char>, i: int) -> bool {
    0 <= i && i + pat.len() <= s.len() && s.subrange(i, i + pat.len()) == pat
}

/// Whether `pat` occurs anywhere in `s`.
pub open spec fn contains_seq(s: Seq<char>, pat: Seq<char>) -> bool {
    exists|i: int| occurs_at(s, pat, i)
}

/// The first position at or after `from` where `pat` occurs in `s`.
pub open spec fn find_from(s: Seq<char>, pat: Seq<char>, from: int) -> Option<int>
    decreases s.len() + 1 - from,
{
    if from < 0 || from + pat.len() > s.len() {
        None
    } else if occurs_at(s, pat, from) {
        Some(from)
    } else {
        find_from(s, pat, from + 1)
    }
}

/// The first position where `pat` occurs in `s`.
pub open spec fn find_seq(s: Seq<char>, pat: Seq<char>) -> Option<int> {
    find_from(s, pat, 0)
}

/// The first position at or after `from` that holds `c`.
pub open spec fn find_char_from(s: Seq<char>, c: char, from: int) -> Option<int>
    decreases s.len() - from,
{
    if from < 0 || from >= s.len() {
        None
    } else if s[from] == c {
        Some(from)
    } else {
        find_char_from(s, c, from + 1)
    }
}

/// The value of a sequence of ASCII decimal digits.
pub open spec fn digits_value(s: Seq<char>) -> nat
    decreases s.len(),
{
    if s.len() == 0 {
        0
    } else {
        digits_value(s.drop_last()) * 10 + ((s.last() as u32) - ('0' as u32)) as nat
    }
}

pub open spec fn all_ascii_digits(s: Seq<char>) -> bool {
    forall|i: int| 0 <= i < s.len() ==> '0' <= #[trigger] s[i] <= '9'
}

/// What `str::parse::<u32>` gives for `s`: an optional `+`, then one or more
/// ASCII digits whose value fits in a `u32`.
pub open spec fn parse_u32_of(s: Seq<char>) -> Option<u32> {
    let d = if s.len() > 0 && s[0] == '+' { s.drop_first() } else { s };
    if d.len() > 0 && all_ascii_digits(d) && digits_value(d) <= u32::MAX {
        Some(digits_value(d) as u32)
    } else {
        None
    }
}

/// `String::push`: appends one character.
#[verifier::external_body]
pub fn push_char(s: &mut String, c: char)
    ensures
        final(s)@ == old(s)@.push(c),
{
    s.push(c);
}

/// Appends `t` to `s`.
pub fn push_str(s: &mut String, t: &str)
    ensures
        final(s)@ == old(s)@ + t@,
{
    s.append(t);
}

/// The characters of `s`.
pub fn chars_of(s: &str) -> (v: Vec<char>)
    ensures
        v@ == s@,
{
    let mut v: Vec<char> = Vec::new();
    for c in it: s.chars()
        invariant
            v@ == it.seq().take(it.index() as int),
            it.seq() == s@,
    {
        v.push(c);
        assert(v@ =~= it.seq().take(it.index() as int + 1));
    }
    assert(v@ =~= s@);
    v
}

/// A new string holding `v[from..to]`.
pub fn string_of(v: &Vec<char>, from: usize, to: usize) -> (s: String)
    requires
        from <= to <= v@.len(),
    ensures
        s@ == v@.subrange(from as int, to as int),
{
    let mut s = String::new();
    let mut i = from;
    while i < to
        invariant
            from <= i <= to <= v@.len(),
            s@ == v@.subrange(from as int, i as int),
        decreases to - i,
    {
        push_char(&mut s, v[i]);
        assert(s@ =~= v@.subrange(from as int, i + 1));
        i = i + 1;
    }
    s
}

/// A new string holding the characters of `v`.
pub fn string_of_all(v: &Vec<char>) -> (s: String)
    ensures
        s@ == v@,
{
    let s = string_of(v, 0, v.len());
    assert(v@.subrange(0, v@.len() as int) =~= v@);
    s
}

proof fn lemma_trim_start_skip(s: Seq<char>, i: int)
    requires
        0 <= i <= s.len(),
        forall|j: int| 0 <= j < i ==> is_white_space(#[trigger] s[j]),
    ensures
        trim_start_of(s) == trim_start_of(s.subrange(i, s.len() as int)),
    decreases i,
{
    if i > 0 {
        assert(s.drop_first().subrange(i - 1, s.drop_first().len() as int) =~= s.subrange(i, s.len() as int));
        assert forall|j: int| 0 <= j < i - 1 implies is_white_space(#[trigger] s.drop_first()[j]) by {
            assert(s.drop_first()[j] == s[j + 1]);
        }
        lemma_trim_start_skip(s.drop_first(), i - 1);
    } else {
        assert(s.subrange(0, s.len() as int) =~= s);
    }
}

proof fn lemma_trim_end_skip(s: Seq<char>, e: int)
    requires
        0 <= e <= s.len(),
        forall|j: int| e <= j < s.len() ==> is_white_space(#[trigger] s[j]),
    ensures
        trim_end_of(s) == trim_end_of(s.subrange(0, e)),
    decreases s.len() - e,
{
    if e < s.len() {
        assert(s.drop_last().subrange(0, e) =~= s.subrange(0, e));
        assert forall|j: int| e <= j < s.drop_last().len() implies is_white_space(#[trigger] s.drop_last()[j]) by {
            assert(s.drop_last()[j] == s[j]);
        }
        lemma_trim_end_skip(s.drop_last(), e);
    } else {
        assert(s.subrange(0, e) =~= s);
    }
}

/// The bounds of `v[from..to]` with its leading and trailing white space removed.
pub fn trim_bounds(v: &Vec<char>, from: usize, to: usize) -> (r: (usize, usize))
    requires
        from <= to <= v@.len(),
    ensures
        from <= r.0 <= r.1 <= to,
        v@.subrange(r.0 as int, r.1 as int) == trim_of(v@.subrange(from as int, to as int)),
{
    let ghost s = v@.subrange(from as int, to as int);
    let mut a = from;
    while a < to && is_whitespace(v[a])
        invariant
            from <= a <= to <= v@.len(),
            forall|j: int| from <= j < a ==> is_white_space(#[trigger] v@[j]),
        decreases to - a,
    {
        a = a + 1;
    }
    proof {
        assert forall|j: int| 0 <= j < a - from implies is_white_space(#[trigger] s[j]) by {
            assert(s[j] == v@[from + j]);
        }
        lemma_trim_start_skip(s, a - from);
        assert(s.subrange(a - from, s.len() as int) =~= v@.subrange(a as int, to as int));
        let t = v@.subrange(a as int, to as int);
        if a < to {
            assert(t[0] == v@[a as int]);
            assert(trim_start_of(t) == t);
        } else {
            assert(t.len() == 0);
        }
    }
    let mut b = to;
    while b > a && is_whitespace(v[b - 1])
        invariant
            from <= a <= b <= to <= v@.len(),
            forall|j: int| b <= j < to ==> is_white_space(#[trigger] v@[j]),
        decreases b - a,
    {
        b = b - 1;
    }
    proof {
        let t = v@.subrange(a as int, to as int);
        assert forall|j: int| b - a <= j < t.len() implies is_white_space(#[trigger] t[j]) by {
            assert(t[j] == v@[a + j]);
        }
        lemma_trim_end_skip(t, b - a);
        let u = t.subrange(0, b - a);
        assert(u =~= v@.subrange(a as int, b as int));
        if b > a {
            assert(u.last() == v@[b - 1]);
        }
    }
    (a, b)
}

/// A new string holding `s` trimmed, as `str::trim` followed by `to_string` gives.
pub fn trimmed(v: &Vec<char>, from: usize, to: usize) -> (s: String)
    requires
        from <= to <= v@.len(),
    ensures
        s@ == trim_of(v@.subrange(from as int, to as int)),
{
    let (a, b) = trim_bounds(v, from, to);
    string_of(v, a, b)
}

/// Whether `pat` occurs in `v` at position `i`.
pub fn occurs_at_exec(v: &Vec<char>, pat: &Vec<char>, i: usize) -> (r: bool)
    ensures
        r == occurs_at(v@, pat@, i as int),
{
    if i > v.len() || pat.len() > v.len() - i {
        return false;
    }
    let mut j: usize = 0;
    while j < pat.len()
        invariant
            i + pat@.len() <= v@.len(),
            j <= pat@.len(),
            forall|m: int| 0 <= m < j ==> v@[i + m] == pat@[m],
        decreases pat@.len() - j,
    {
        assert(i + j < v.len());
        if v[i + j] != pat[j] {
            assert(v@.subrange(i as int, i + pat@.len())[j as int] != pat@[j as int]);
            return false;
        }
        j = j + 1;
    }
    assert(v@.subrange(i as int, i + pat@.len()) =~= pat@);
    true
}

/// The first position at or after `from` where `pat` occurs in `v`.
pub fn find_from_exec(v: &Vec<char>, pat: &Vec<char>, from: usize) -> (r: Option<usize>)
    ensures
        r matches Some(i) ==> find_from(v@, pat@, from as int) == Some(i as int),
        r is None ==> find_from(v@, pat@, from as int) is None,
{
    let mut i = from;
    while i <= v.len() && pat.len() <= v.len() - i
        invariant
            from <= i,
            find_from(v@, pat@, from as int) == find_from(v@, pat@, i as int),
        decreases v@.len() + 1 - i,
    {
        if occurs_at_exec(v, pat, i) {
            return Some(i);
        }
        if i == v.len() {
            assert(v@.subrange(i as int, i as int) =~= pat@);
        }
        i = i + 1;
    }
    None
}

/// Whether `pat` occurs anywhere in `v`.
pub fn contains_exec(v: &Vec<char>, pat: &Vec<char>) -> (r: bool)
    ensures
        r == contains_seq(v@, pat@),
{
    let r = find_from_exec(v, pat, 0);
    proof {
        lemma_find_from_contains(v@, pat@, 0);
    }
    r.is_some()
}

/// `find_from` finds an occurrence exactly when one exists at or after `from`.
pub proof fn lemma_find_from_contains(s: Seq<char>, pat: Seq<char>, from: int)
    requires
        0 <= from,
    ensures
        find_from(s, pat, from) is Some <==> exists|i: int| from <= i && occurs_at(s, pat, i),
        find_from(s, pat, from) matches Some(i) ==> from <= i && occurs_at(s, pat, i)
            && forall|j: int| from <= j < i ==> !occurs_at(s, pat, j),
    decreases s.len() + 1 - from,
{
    if from + pat.len() > s.len() {
        assert forall|i: int| from <= i implies !occurs_at(s, pat, i) by {}
    } else if occurs_at(s, pat, from) {
    } else {
        lemma_find_from_contains(s, pat, from + 1);
        assert forall|i: int| from <= i && occurs_at(s, pat, i) implies from + 1 <= i by {}
    }
}

/// The first position at or after `from` that holds `c`.
pub fn find_char_exec(v: &Vec<char>, c: char, from: usize) -> (r: Option<usize>)
    ensures
        r matches Some(i) ==> find_char_from(v@, c, from as int) == Some(i as int),
        r is None ==> find_char_from(v@, c, from as int) is None,
{
    let mut i = from;
    while i < v.len()
        invariant
            from <= i,
            find_char_from(v@, c, from as int) == find_char_from(v@, c, i as int),
        decreases v@.len() - i,
    {
        if v[i] == c {
            return Some(i);
        }
        i = i + 1;
    }
    None
}

/// Scanning from `i` with `depth` of the openers `o` still unclosed, the
/// position of the closer `c` that closes them all.
pub open spec fn close_scan(s: Seq<char>, i: int, depth: int, o: char, c: char) -> Option<int>
    decreases s.len() - i,
{
    if i < 0 || i >= s.len() {
        None
    } else if s[i] == o {
        close_scan(s, i + 1, depth + 1, o, c)
    } else if s[i] == c {
        if depth - 1 == 0 {
            Some(i)
        } else {
            close_scan(s, i + 1, depth - 1, o, c)
        }
    } else {
        close_scan(s, i + 1, depth, o, c)
    }
}

/// The position of the closer `c` that matches the opener `o` at `open`
/// (such as the `)` of a `(`), counting the pairs nested between them.
pub open spec fn matching_close(s: Seq<char>, open: int, o: char, c: char) -> Option<int> {
    if 0 <= open < s.len() && s[open] == o {
        close_scan(s, open, 0, o, c)
    } else {
        None
    }
}

pub proof fn lemma_close_scan(s: Seq<char>, i: int, depth: int, o: char, c: char)
    ensures
        close_scan(s, i, depth, o, c) matches Some(e) ==> i <= e < s.len() && s[e] == c,
    decreases s.len() - i,
{
    if 0 <= i < s.len() {
        if s[i] == o {
            lemma_close_scan(s, i + 1, depth + 1, o, c);
        } else if s[i] == c {
            if depth - 1 != 0 {
                lemma_close_scan(s, i + 1, depth - 1, o, c);
            }
        } else {
            lemma_close_scan(s, i + 1, depth, o, c);
        }
    }
}

pub proof fn lemma_matching_close(s: Seq<char>, open: int, o: char, c: char)
    ensures
        matching_close(s, open, o, c) matches Some(e) ==> open < e < s.len() && s[e] == c,
{
    if 0 <= open < s.len() && s[open] == o {
        lemma_close_scan(s, open + 1, 1, o, c);
    }
}

/// The position of the closer `c` that matches the opener `o` at `open`.
pub fn find_matching_close(v: &Vec<char>, open: usize, o: char, c: char) -> (r: Option<usize>)
    ensures
        r matches Some(e) ==> matching_close(v@, open as int, o, c) == Some(e as int),
        r is None ==> matching_close(v@, open as int, o, c) is None,
{
    if open >= v.len() || v[open] != o {
        return None;
    }
    let mut depth: usize = 0;
    let mut i = open;
    while i < v.len()
        invariant
            open <= i <= v@.len(),
            open < v@.len(),
            v@[open as int] == o,
            depth <= i - open,
            i > open ==> depth >= 1,
            close_scan(v@, open as int, 0, o, c) == close_scan(v@, i as int, depth as int, o, c),
        decreases v@.len() - i,
    {
        let x = v[i];
        if x == o {
            depth = depth + 1;
        } else if x == c {
            if depth - 1 == 0 {
                return Some(i);
            }
            depth = depth - 1;
        }
        i = i + 1;
    }
    None
}

/// The first position at or after `i` where `->` begins and ends before `e`.
pub open spec fn find_arrow(s: Seq<char>, i: int, e: int) -> Option<int>
    decreases e - i,
{
    if i < 0 || e > s.len() || i + 1 >= e {
        None
    } else if s[i] == '-' && s[i + 1] == '>' {
        Some(i)
    } else {
        find_arrow(s, i + 1, e)
    }
}

pub proof fn lemma_find_arrow(s: Seq<char>, i: int, e: int)
    ensures
        find_arrow(s, i, e) matches Some(a) ==> i <= a && a + 2 <= e <= s.len(),
    decreases e - i,
{
    if !(i < 0 || e > s.len() || i + 1 >= e) && !(s[i] == '-' && s[i + 1] == '>') {
        lemma_find_arrow(s, i + 1, e);
    }
}

/// The first position at or after `from` where `->` begins and ends before `to`.
pub fn find_arrow_exec(v: &Vec<char>, from: usize, to: usize) -> (r: Option<usize>)
    requires
        to <= v@.len(),
    ensures
        r matches Some(a) ==> find_arrow(v@, from as int, to as int) == Some(a as int),
        r is None ==> find_arrow(v@, from as int, to as int) is None,
{
    let mut i = from;
    while i < to && i + 1 < to
        invariant
            from <= i,
            to <= v@.len(),
            find_arrow(v@, from as int, to as int) == find_arrow(v@, i as int, to as int),
        decreases to - i,
    {
        if v[i] == '-' && v[i + 1] == '>' {
            return Some(i);
        }
        i = i + 1;
    }
    None
}

proof fn lemma_digits_value_push(s: Seq<char>, c: char)
    ensures
        digits_value(s.push(c)) == digits_value(s) * 10 + ((c as u32) - ('0' as u32)) as nat,
{
    assert(s.push(c).drop_last() =~= s);
}

/// `str::parse::<u32>` on `v[from..to]`.
pub fn parse_u32(v: &Vec<char>, from: usize, to: usize) -> (r: Option<u32>)
    requires
        from <= to <= v@.len(),
    ensures
        r == parse_u32_of(v@.subrange(from as int, to as int)),
{
    let ghost s = v@.subrange(from as int, to as int);
    let has_plus = from < to && v[from] == '+';
    let mut i = if has_plus { from + 1 } else { from };
    let ghost d = v@.subrange(i as int, to as int);
    proof {
        if s.len() > 0 {
            assert(s[0] == v@[from as int]);
        }
        assert(has_plus == (s.len() > 0 && s[0] == '+'));
        if has_plus {
            assert(d =~= s.drop_first());
        } else {
            assert(d =~= s);
        }
    }
    if i == to {
        assert(parse_u32_of(s) is None);
        return None;
    }
    let start = i;
    let mut value: u64 = 0;
    while i < to
        invariant
            start <= i <= to <= v@.len(),
            d == v@.subrange(start as int, to as int),
            d.len() > 0,
            s == v@.subrange(from as int, to as int),
            parse_u32_of(s) == (if all_ascii_digits(d) && digits_value(d) <= u32::MAX {
                Some(digits_value(d) as u32)
            } else {
                None::<u32>
            }),
            all_ascii_digits(v@.subrange(start as int, i as int)),
            value == digits_value(v@.subrange(start as int, i as int)),
            value <= u32::MAX,
        decreases to - i,
    {
        let c = v[i];
        let ghost p = v@.subrange(start as int, i as int);
        assert(v@.subrange(start as int, i + 1) =~= p.push(c));
        proof {
            lemma_digits_value_push(p, c);
        }
        if c < '0' || c > '9' {
            assert(d[i - start] == c);
            assert(!all_ascii_digits(d));
            assert(parse_u32_of(s) is None);
            return None;
        }
        let digit = (c as u32 - '0' as u32) as u64;
        let next = value * 10 + digit;
        if next > u32::MAX as u64 {
            assert(parse_u32_of(s) is None) by {
                if all_ascii_digits(d) {
                    lemma_digits_value_grows(d, (i + 1 - start) as int);
                    assert(d.subrange(0, i + 1 - start) =~= v@.subrange(start as int, i + 1));
                    assert(digits_value(d) > u32::MAX);
                }
            }
            return None;
        }
        value = next;
        i = i + 1;
    }
    assert(v@.subrange(start as int, i as int) =~= d);
    Some(value as u32)
}

proof fn lemma_digits_value_grows(d: Seq<char>, n: int)
    requires
        0 <= n <= d.len(),
        all_ascii_digits(d),
    ensures
        digits_value(d.subrange(0, n)) <= digits_value(d),
    decreases d.len() - n,
{
    if n < d.len() {
        lemma_digits_value_grows(d, n + 1);
        let p = d.subrange(0, n + 1);
        assert(p.drop_last() =~= d.subrange(0, n));
        assert('0' <= p.last() <= '9');
    } else {
        assert(d.subrange(0, n) =~= d);
    }
}

/// A new vector holding `v[from..to]`.
pub fn sub_chars(v: &Vec<char>, from: usize, to: usize) -> (r: Vec<char>)
    requires
        from <= to <= v@.len(),
    ensures
        r@ == v@.subrange(from as int, to as int),
{
    let mut r: Vec<char> = Vec::new();
    let mut i = from;
    while i < to
        invariant
            from <= i <= to <= v@.len(),
            r@ == v@.subrange(from as int, i as int),
        decreases to - i,
    {
        r.push(v[i]);
        assert(r@ =~= v@.subrange(from as int, i + 1));
        i = i + 1;
    }
    r
}

/// `s` without its space characters.
pub open spec fn without_spaces(s: Seq<char>) -> Seq<char>
    decreases s.len(),
{
    if s.len() == 0 {
        s
    } else if s.last() == ' ' {
        without_spaces(s.drop_last())
    } else {
        without_spaces(s.drop_last()).push(s.last())
    }
}

/// A new string holding `v[from..to]` without its space characters.
pub fn string_without_spaces(v: &Vec<char>, from: usize, to: usize) -> (s: String)
    requires
        from <= to <= v@.len(),
    ensures
        s@ == without_spaces(v@.subrange(from as int, to as int)),
{
    let mut s = String::new();
    let mut i = from;
    while i < to
        invariant
            from <= i <= to <= v@.len(),
            s@ == without_spaces(v@.subrange(from as int, i as int)),
        decreases to - i,
    {
        assert(v@.subrange(from as int, i + 1).drop_last() =~= v@.subrange(from as int, i as int));
        if v[i] != ' ' {
            push_char(&mut s, v[i]);
        }
        i = i + 1;
    }
    s
}

/// The decimal digit for `d`.
pub open spec fn digit_char(d: nat) -> char {
    (('0' as u32) + d) as char
}

/// The decimal text of `n`, as `format!("{}", n)` writes an unsigned integer.
pub open spec fn decimal(n: nat) -> Seq<char>
    decreases n,
{
    if n < 10 {
        seq![digit_char(n)]
    } else {
        decimal(n / 10).push(digit_char(n % 10))
    }
}

/// Appends the decimal text of `n` to `s`.
pub fn push_decimal(s: &mut String, n: u64)
    ensures
        final(s)@ == old(s)@ + decimal(n as nat),
    decreases n,
{
    if n >= 10 {
        push_decimal(s, n / 10);
    }
    let d = n % 10;
    let c = if d == 0 { '0' } else if d == 1 { '1' } else if d == 2 { '2' } else if d == 3 { '3' } else if d == 4 {
        '4'
    } else if d == 5 { '5' } else if d == 6 { '6' } else if d == 7 { '7' } else if d == 8 { '8' } else { '9' };
    assert(c == digit_char(d as nat));
    push_char(s, c);
    proof {
        if n >= 10 {
            assert(decimal(n as nat) == decimal((n / 10) as nat).push(digit_char((n % 10) as nat)));
        }
    }
}

/// `s` with every occurrence of `pat` replaced by `rep`, scanning from the
/// left and resuming after each replaced occurrence, as `str::replace` does
/// for a non-empty pattern.
pub open spec fn replaced(s: Seq<char>, pat: Seq<char>, rep: Seq<char>) -> Seq<char>
    decreases s.len(),
{
    if pat.len() == 0 || s.len() == 0 {
        s
    } else if occurs_at(s, pat, 0) {
        rep + replaced(s.skip(pat.len() as int), pat, rep)
    } else {
        seq![s[0]] + replaced(s.skip(1), pat, rep)
    }
}

/// `s` with every occurrence of `pat` replaced by `rep` (see `replaced`).
pub fn replace_text(s: &str, pat: &str, rep: &str) -> (r: String)
    requires
        pat@.len() > 0,
    ensures
        r@ == replaced(s@, pat@, rep@),
{
    let v = chars_of(s);
    let p = chars_of(pat);
    let mut out = String::new();
    let mut i: usize = 0;
    assert(v@.skip(0) =~= v@);
    while i < v.len()
        invariant
            v@ == s@,
            p@ == pat@,
            p@.len() > 0,
            i <= v@.len(),
            out@ + replaced(v@.skip(i as int), p@, rep@) == replaced(v@, p@, rep@),
        decreases v@.len() - i,
    {
        let ghost rest = v@.skip(i as int);
        assert(rest.len() > 0);
        if occurs_at_exec(&v, &p, i) {
            assert(rest.subrange(0, p@.len() as int) =~= v@.subrange(i as int, i + p@.len()));
            assert(occurs_at(rest, p@, 0));
            assert(rest.skip(p@.len() as int) =~= v@.skip(i + p@.len()));
            assert(replaced(rest, p@, rep@) == rep@ + replaced(v@.skip(i + p@.len()), p@, rep@));
            let ghost before = out@;
            push_str(&mut out, rep);
            assert(out@ + replaced(v@.skip(i + p@.len()), p@, rep@) =~= before + (rep@ + replaced(
                v@.skip(i + p@.len()),
                p@,
                rep@,
            )));
            i = i + p.len();
        } else {
            assert(!occurs_at(rest, p@, 0)) by {
                if occurs_at(rest, p@, 0) {
                    assert(rest.subrange(0, p@.len() as int) =~= v@.subrange(i as int, i + p@.len()));
                }
            }
            assert(rest.skip(1) =~= v@.skip(i + 1));
            assert(rest[0] == v@[i as int]);
            let ghost before = out@;
            push_char(&mut out, v[i]);
            assert(out@ + replaced(v@.skip(i + 1), p@, rep@) =~= before + (seq![v@[i as int]] + replaced(
                v@.skip(i + 1),
                p@,
                rep@,
            )));
            i = i + 1;
        }
    }
    assert(v@.skip(i as int) =~= Seq::<char>::empty());
    assert(out@ + Seq::<char>::empty() =~= out@);
    out
}

/// Replacing a pattern that does not occur leaves the text as it is.
pub proof fn lemma_replaced_absent(s: Seq<char>, pat: Seq<char>, rep: Seq<char>)
    requires
        !contains_seq(s, pat),
    ensures
        replaced(s, pat, rep) == s,
    decreases s.len(),
{
    if pat.len() > 0 && s.len() > 0 {
        assert(!occurs_at(s, pat, 0));
        let t = s.skip(1);
        assert(!contains_seq(t, pat)) by {
            if contains_seq(t, pat) {
                let i = choose|i: int| occurs_at(t, pat, i);
                assert(s.subrange(i + 1, i + 1 + pat.len()) =~= t.subrange(i, i + pat.len()));
                assert(occurs_at(s, pat, i + 1));
            }
        }
        lemma_replaced_absent(t, pat, rep);
        assert(seq![s[0]] + t =~= s);
    }
}

} // verus!
