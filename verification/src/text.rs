//! Character-level helpers shared by the parsers of this crate.
//!
//! Every function works on the characters of a string (its view, a
//! `Seq<char>`), so positions are counted in characters.

use vstd::prelude::*;

verus! {

/// `String::push` appends one character.
pub assume_specification[ String::push ](s: &mut String, c: char)
    ensures
        final(s)@ == old(s)@.push(c),
;

/// What `str::to_lowercase` returns for a string with the given characters.
pub uninterp spec fn lowercase(s: Seq<char>) -> Seq<char>;

/// Every character of `s` is an ASCII character.
pub open spec fn is_ascii(s: Seq<char>) -> bool {
    forall|i: int| 0 <= i < s.len() ==> (#[trigger] s[i]) <= '\u{7f}'
}

/// The lower-case form of an ASCII character: the letters `A` to `Z` become
/// `a` to `z`; every other character stays.
pub open spec fn ascii_lower(c: char) -> char {
    if 'A' <= c && c <= 'Z' {
        ((c as u32) + 32) as char
    } else {
        c
    }
}

/// The upper-case form of an ASCII character: the letters `a` to `z` become
/// `A` to `Z`; every other character stays.
pub open spec fn ascii_upper(c: char) -> char {
    if 'a' <= c && c <= 'z' {
        ((c as u32) - 32) as char
    } else {
        c
    }
}

/// `s` with each character in its ASCII lower-case form.
pub open spec fn ascii_lowercase(s: Seq<char>) -> Seq<char> {
    s.map_values(|c: char| ascii_lower(c))
}

/// `s` with each character in its ASCII upper-case form.
pub open spec fn ascii_uppercase(s: Seq<char>) -> Seq<char> {
    s.map_values(|c: char| ascii_upper(c))
}

/// The lower-case form of `s`: for a string of ASCII characters, each
/// character in its ASCII lower-case form; for any other string, what
/// `str::to_lowercase` returns.
pub open spec fn lowered(s: Seq<char>) -> Seq<char> {
    if is_ascii(s) {
        ascii_lowercase(s)
    } else {
        lowercase(s)
    }
}

/// `str::to_lowercase`: the Unicode lowercase form of `s`. In a string of
/// ASCII characters the letters `A` to `Z` become `a` to `z` and nothing
/// else changes. Of any other string nothing is claimed but that the result
/// depends on its characters alone.
#[verifier::external_body]
pub(crate) fn to_lowercase(s: &str) -> (r: String)
    ensures
        is_ascii(s@) ==> r@ == ascii_lowercase(s@),
        !is_ascii(s@) ==> r@ == lowercase(s@),
{
    s.to_lowercase()
}

/// `a` and `b` differ at most in the case of their ASCII letters.
pub open spec fn same_but_case(a: Seq<char>, b: Seq<char>) -> bool {
    &&& a.len() == b.len()
    &&& forall|i: int| 0 <= i < a.len() ==> ascii_lower(#[trigger] a[i]) == ascii_lower(b[i])
}

/// Strings of ASCII characters that differ at most in case have the same
/// lower-case form.
pub proof fn lemma_lowered_same(a: Seq<char>, b: Seq<char>)
    requires
        is_ascii(a),
        is_ascii(b),
        same_but_case(a, b),
    ensures
        lowered(a) == lowered(b),
        is_ascii(lowered(a)),
        lowered(lowered(a)) == lowered(a),
{
    assert(ascii_lowercase(a) =~= ascii_lowercase(b));
    let l = ascii_lowercase(a);
    assert forall|i: int| 0 <= i < l.len() implies (#[trigger] l[i]) <= '\u{7f}' by {
        assert(a[i] <= '\u{7f}');
    }
    assert(ascii_lowercase(l) =~= l);
}

/// The ASCII lower-case and upper-case forms of a string differ from it at
/// most in case.
pub proof fn lemma_case_forms(s: Seq<char>)
    requires
        is_ascii(s),
    ensures
        same_but_case(s, ascii_lowercase(s)),
        same_but_case(s, ascii_uppercase(s)),
        is_ascii(ascii_lowercase(s)),
        is_ascii(ascii_uppercase(s)),
{
    assert forall|i: int| 0 <= i < s.len() implies ascii_lower(#[trigger] s[i]) == ascii_lower(
        ascii_lowercase(s)[i],
    ) && ascii_lower(s[i]) == ascii_lower(ascii_uppercase(s)[i]) && ascii_lowercase(s)[i]
        <= '\u{7f}' && ascii_uppercase(s)[i] <= '\u{7f}' by {
        assert(s[i] <= '\u{7f}');
    }
}

/// The characters of `s`, in order.
pub fn chars_of(s: &str) -> (v: Vec<char>)
    ensures
        v@ == s@,
{
    let mut v: Vec<char> = Vec::new();
    for c in it: s.chars()
        invariant
            it.seq() == s@,
            v@ == it.seq().take(it.index() as int),
    {
        v.push(c);
    }
    v
}

/// The string made of the characters of `v`, in order.
pub fn string_of(v: &Vec<char>) -> (s: String)
    ensures
        s@ == v@,
{
    let mut s = String::new();
    let mut i: usize = 0;
    while i < v.len()
        invariant
            i <= v.len(),
            s@ == v@.take(i as int),
        decreases v.len() - i,
    {
        s.push(v[i]);
        i += 1;
    }
    s
}

/// The characters `v[from..to]` as a new vector.
pub fn slice_of(v: &Vec<char>, from: usize, to: usize) -> (r: Vec<char>)
    requires
        from <= to <= v.len(),
    ensures
        r@ == v@.subrange(from as int, to as int),
{
    let mut r: Vec<char> = Vec::new();
    let mut i: usize = from;
    while i < to
        invariant
            from <= i <= to <= v.len(),
            r@ == v@.subrange(from as int, i as int),
        decreases to - i,
    {
        r.push(v[i]);
        i += 1;
    }
    r
}

/// Appends the characters of `tail` to `out`.
pub fn append_chars(out: &mut Vec<char>, tail: &Vec<char>)
    ensures
        final(out)@ == old(out)@ + tail@,
{
    let mut i: usize = 0;
    while i < tail.len()
        invariant
            i <= tail.len(),
            out@ == old(out)@ + tail@.take(i as int),
        decreases tail.len() - i,
    {
        out.push(tail[i]);
        i += 1;
    }
    assert(tail@.take(tail.len() as int) == tail@);
}

/// Whether two character vectors hold the same characters.
pub fn same_chars(a: &Vec<char>, b: &Vec<char>) -> (r: bool)
    ensures
        r == (a@ == b@),
{
    if a.len() != b.len() {
        return false;
    }
    let mut i: usize = 0;
    while i < a.len()
        invariant
            i <= a.len(),
            a.len() == b.len(),
            a@.take(i as int) == b@.take(i as int),
        decreases a.len() - i,
    {
        if a[i] != b[i] {
            return false;
        }
        assert(a@.take(i + 1) == a@.take(i as int).push(a@[i as int]));
        assert(b@.take(i + 1) == b@.take(i as int).push(b@[i as int]));
        i += 1;
    }
    assert(a@.take(a.len() as int) == a@);
    assert(b@.take(b.len() as int) == b@);
    true
}

/// Whether the characters of `s` are exactly those of the literal `lit`.
pub fn is_literal(s: &Vec<char>, lit: &str) -> (r: bool)
    ensures
        r == (s@ == lit@),
{
    let l = chars_of(lit);
    same_chars(s, &l)
}

/// A found position as a mathematical integer.
pub open spec fn position(r: Option<usize>) -> Option<int> {
    match r {
        Some(at) => Some(at as int),
        None => None,
    }
}

/// `needle` occurs in `hay` at position `at`.
pub open spec fn occurs_at(hay: Seq<char>, needle: Seq<char>, at: int) -> bool {
    &&& 0 <= at
    &&& at + needle.len() <= hay.len()
    &&& hay.subrange(at, at + needle.len()) == needle
}

/// `hay` begins with `prefix`.
pub open spec fn has_prefix(hay: Seq<char>, prefix: Seq<char>) -> bool {
    occurs_at(hay, prefix, 0)
}

/// `hay` ends with `suffix`.
pub open spec fn has_suffix(hay: Seq<char>, suffix: Seq<char>) -> bool {
    occurs_at(hay, suffix, hay.len() - suffix.len())
}

/// `needle` occurs somewhere in `hay`.
pub open spec fn has_infix(hay: Seq<char>, needle: Seq<char>) -> bool {
    exists|at: int| occurs_at(hay, needle, at)
}

/// The first position at or after `from` where `needle` occurs in `hay`.
pub open spec fn first_occurrence(hay: Seq<char>, needle: Seq<char>, from: int) -> Option<int> {
    if exists|at: int| from <= at && occurs_at(hay, needle, at) {
        Some(
            choose|at: int|
                from <= at && occurs_at(hay, needle, at) && forall|j: int|
                    from <= j < at ==> !occurs_at(hay, needle, j),
        )
    } else {
        None
    }
}

/// The last position where `needle` occurs in `hay`.
pub open spec fn last_occurrence(hay: Seq<char>, needle: Seq<char>) -> Option<int> {
    if exists|at: int| occurs_at(hay, needle, at) {
        Some(
            choose|at: int|
                occurs_at(hay, needle, at) && forall|j: int| at < j ==> !occurs_at(hay, needle, j),
        )
    } else {
        None
    }
}

/// Whether `needle` occurs in `hay` at position `at`.
pub fn matches_at(hay: &Vec<char>, needle: &Vec<char>, at: usize) -> (r: bool)
    ensures
        r == occurs_at(hay@, needle@, at as int),
{
    if at > hay.len() || needle.len() > hay.len() - at {
        return false;
    }
    let mut i: usize = 0;
    while i < needle.len()
        invariant
            i <= needle.len(),
            at + needle.len() <= hay.len(),
            hay@.subrange(at as int, at + i) == needle@.take(i as int),
        decreases needle.len() - i,
    {
        if hay[at + i] != needle[i] {
            assert(hay@.subrange(at as int, at + needle.len())[i as int] != needle@[i as int]);
            return false;
        }
        assert(hay@.subrange(at as int, at + i + 1) == hay@.subrange(at as int, at + i).push(
            hay@[at + i],
        ));
        assert(needle@.take(i + 1) == needle@.take(i as int).push(needle@[i as int]));
        i += 1;
    }
    assert(needle@.take(needle.len() as int) == needle@);
    true
}

/// Whether `hay` begins with `prefix`.
pub fn starts_with(hay: &Vec<char>, prefix: &Vec<char>) -> (r: bool)
    ensures
        r == has_prefix(hay@, prefix@),
{
    matches_at(hay, prefix, 0)
}

/// Whether `hay` ends with `suffix`.
pub fn ends_with(hay: &Vec<char>, suffix: &Vec<char>) -> (r: bool)
    ensures
        r == has_suffix(hay@, suffix@),
{
    if suffix.len() > hay.len() {
        return false;
    }
    matches_at(hay, suffix, hay.len() - suffix.len())
}

/// The first occurrence of `needle` in `hay` at or after `from`.
pub fn find_from(hay: &Vec<char>, needle: &Vec<char>, from: usize) -> (r: Option<usize>)
    ensures
        match r {
            Some(at) => from <= at && occurs_at(hay@, needle@, at as int) && forall|j: int|
                from <= j < at ==> !occurs_at(hay@, needle@, j),
            None => forall|j: int| from <= j ==> !occurs_at(hay@, needle@, j),
        },
        position(r) == first_occurrence(hay@, needle@, from as int),
{
    if from > hay.len() {
        return None;
    }
    let mut i: usize = from;
    loop
        invariant
            from <= i <= hay.len(),
            forall|j: int| from <= j < i ==> !occurs_at(hay@, needle@, j),
        decreases hay.len() - i,
    {
        if matches_at(hay, needle, i) {
            proof {
                lemma_first_occurrence(hay@, needle@, from as int, i as int);
            }
            return Some(i);
        }
        if i == hay.len() {
            return None;
        }
        i += 1;
    }
}

/// The last occurrence of `needle` in `hay`.
pub fn find_last(hay: &Vec<char>, needle: &Vec<char>) -> (r: Option<usize>)
    ensures
        match r {
            Some(at) => occurs_at(hay@, needle@, at as int) && forall|j: int|
                at < j ==> !occurs_at(hay@, needle@, j),
            None => forall|j: int| !occurs_at(hay@, needle@, j),
        },
        position(r) == last_occurrence(hay@, needle@),
{
    let mut i: usize = hay.len();
    loop
        invariant
            i <= hay.len(),
            forall|j: int| i < j ==> !occurs_at(hay@, needle@, j),
        decreases i,
    {
        if matches_at(hay, needle, i) {
            proof {
                lemma_last_occurrence(hay@, needle@, i as int);
            }
            return Some(i);
        }
        if i == 0 {
            return None;
        }
        i -= 1;
    }
}

/// Whether `needle` occurs anywhere in `hay`.
pub fn contains(hay: &Vec<char>, needle: &Vec<char>) -> (r: bool)
    ensures
        r == has_infix(hay@, needle@),
{
    find_from(hay, needle, 0).is_some()
}

/// Whether the character `c` occurs in `hay`.
pub fn contains_char(hay: &Vec<char>, c: char) -> (r: bool)
    ensures
        r == hay@.contains(c),
{
    let mut i: usize = 0;
    while i < hay.len()
        invariant
            i <= hay.len(),
            forall|j: int| 0 <= j < i ==> hay@[j] != c,
        decreases hay.len() - i,
    {
        if hay[i] == c {
            return true;
        }
        i += 1;
    }
    false
}

/// A position with the defining property of the first occurrence is the first occurrence.
pub proof fn lemma_first_occurrence(hay: Seq<char>, needle: Seq<char>, from: int, at: int)
    requires
        from <= at,
        occurs_at(hay, needle, at),
        forall|j: int| from <= j < at ==> !occurs_at(hay, needle, j),
    ensures
        first_occurrence(hay, needle, from) == Some(at),
{
    let found = choose|k: int|
        from <= k && occurs_at(hay, needle, k) && forall|j: int|
            from <= j < k ==> !occurs_at(hay, needle, j);
    assert(from <= found && occurs_at(hay, needle, found));
    assert(forall|j: int| from <= j < found ==> !occurs_at(hay, needle, j));
    assert(found == at);
}

/// A position with the defining property of the last occurrence is the last occurrence.
pub proof fn lemma_last_occurrence(hay: Seq<char>, needle: Seq<char>, at: int)
    requires
        occurs_at(hay, needle, at),
        forall|j: int| at < j ==> !occurs_at(hay, needle, j),
    ensures
        last_occurrence(hay, needle) == Some(at),
{
    let found = choose|k: int|
        occurs_at(hay, needle, k) && forall|j: int| k < j ==> !occurs_at(hay, needle, j);
    assert(occurs_at(hay, needle, found));
    assert(forall|j: int| found < j ==> !occurs_at(hay, needle, j));
    assert(found == at);
}

/// Whether `c` has the Unicode property White_Space.
pub open spec fn is_space(c: char) -> bool {
    let n = c as u32;
    ||| 0x09 <= n <= 0x0D
    ||| n == 0x20
    ||| n == 0x85
    ||| n == 0xA0
    ||| n == 0x1680
    ||| 0x2000 <= n <= 0x200A
    ||| n == 0x2028
    ||| n == 0x2029
    ||| n == 0x202F
    ||| n == 0x205F
    ||| n == 0x3000
}

/// Whether `c` is white space.
pub fn is_whitespace(c: char) -> (r: bool)
    ensures
        r == is_space(c),
{
    let n: u32 = c as u32;
    (0x09 <= n && n <= 0x0D) || n == 0x20 || n == 0x85 || n == 0xA0 || n == 0x1680 || (0x2000 <= n
        && n <= 0x200A) || n == 0x2028 || n == 0x2029 || n == 0x202F || n == 0x205F || n == 0x3000
}

/// `s` without its leading white space.
pub open spec fn trim_start_of(s: Seq<char>) -> Seq<char>
    decreases s.len(),
{
    if s.len() > 0 && is_space(s.first()) {
        trim_start_of(s.drop_first())
    } else {
        s
    }
}

/// `s` without its trailing white space.
pub open spec fn trim_end_of(s: Seq<char>) -> Seq<char>
    decreases s.len(),
{
    if s.len() > 0 && is_space(s.last()) {
        trim_end_of(s.drop_last())
    } else {
        s
    }
}

/// `s` without leading and trailing white space.
pub open spec fn trimmed(s: Seq<char>) -> Seq<char> {
    trim_end_of(trim_start_of(s))
}

/// `v` without leading and trailing white space.
pub fn trim(v: &Vec<char>) -> (r: Vec<char>)
    ensures
        r@ == trimmed(v@),
{
    let n = v.len();
    let mut start: usize = 0;
    assert(v@.subrange(0, n as int) == v@);
    while start < n && is_whitespace(v[start])
        invariant
            start <= n == v.len(),
            trim_start_of(v@) == trim_start_of(v@.subrange(start as int, n as int)),
        decreases n - start,
    {
        assert(v@.subrange(start as int, n as int).drop_first() == v@.subrange(
            start + 1,
            n as int,
        ));
        start += 1;
    }
    let ghost rest = v@.subrange(start as int, n as int);
    assert(trim_start_of(v@) == rest);
    let mut end: usize = n;
    while end > start && is_whitespace(v[end - 1])
        invariant
            start <= end <= n == v.len(),
            rest == v@.subrange(start as int, n as int),
            trim_end_of(rest) == trim_end_of(v@.subrange(start as int, end as int)),
        decreases end - start,
    {
        assert(v@.subrange(start as int, end as int).drop_last() == v@.subrange(
            start as int,
            end - 1,
        ));
        end -= 1;
    }
    slice_of(v, start, end)
}

/// The pieces of `s` between occurrences of `sep`: one more piece than there
/// are separators, each possibly empty.
pub open spec fn split_on(s: Seq<char>, sep: char) -> Seq<Seq<char>>
    decreases s.len(),
{
    if s.len() == 0 {
        seq![Seq::<char>::empty()]
    } else {
        let before = split_on(s.drop_last(), sep);
        if s.last() == sep {
            before.push(Seq::<char>::empty())
        } else {
            before.drop_last().push(before.last().push(s.last()))
        }
    }
}

/// The views of the vectors of `parts`.
pub open spec fn views(parts: Seq<Vec<char>>) -> Seq<Seq<char>> {
    parts.map_values(|p: Vec<char>| p@)
}

/// `split_on` always yields at least one piece.
pub proof fn lemma_split_nonempty(s: Seq<char>, sep: char)
    ensures
        split_on(s, sep).len() >= 1,
    decreases s.len(),
{
    if s.len() > 0 {
        lemma_split_nonempty(s.drop_last(), sep);
    }
}

/// Splits `v` at every occurrence of `sep`.
pub fn split(v: &Vec<char>, sep: char) -> (parts: Vec<Vec<char>>)
    ensures
        views(parts@) == split_on(v@, sep),
        parts.len() >= 1,
{
    let mut done: Vec<Vec<char>> = Vec::new();
    let mut current: Vec<char> = Vec::new();
    let mut i: usize = 0;
    while i < v.len()
        invariant
            i <= v.len(),
            views(done@).push(current@) == split_on(v@.take(i as int), sep),
        decreases v.len() - i,
    {
        let c = v[i];
        proof {
            let next = v@.take(i + 1);
            assert(next.drop_last() == v@.take(i as int));
            assert(next.last() == c);
            let before = split_on(v@.take(i as int), sep);
            assert(before.drop_last() == views(done@));
            assert(before.last() == current@);
        }
        if c == sep {
            let ghost old_done = done@;
            done.push(current);
            current = Vec::new();
            assert(views(done@) == views(old_done).push(done@.last()@));
        } else {
            current.push(c);
        }
        i += 1;
    }
    assert(v@.take(v.len() as int) == v@);
    let ghost old_done = done@;
    done.push(current);
    assert(views(done@) == views(old_done).push(done@.last()@));
    done
}

/// Whether `c` is one of the ten decimal digits.
pub open spec fn is_digit(c: char) -> bool {
    0x30 <= c as u32 <= 0x39
}

/// The value of a decimal digit.
pub open spec fn digit_value(c: char) -> nat {
    (c as u32 - 0x30) as nat
}

/// Whether every character of `s` is a decimal digit.
pub open spec fn all_digits(s: Seq<char>) -> bool {
    forall|i: int| 0 <= i < s.len() ==> is_digit(#[trigger] s[i])
}

/// The number that the decimal digits of `s` write.
pub open spec fn decimal_value(s: Seq<char>) -> nat
    decreases s.len(),
{
    if s.len() == 0 {
        0
    } else {
        decimal_value(s.drop_last()) * 10 + digit_value(s.last())
    }
}

/// A prefix of a digit string writes a number that is no larger.
pub proof fn lemma_decimal_prefix(s: Seq<char>, k: int)
    requires
        0 <= k <= s.len(),
    ensures
        decimal_value(s.take(k)) <= decimal_value(s),
    decreases s.len() - k,
{
    if k == s.len() {
        assert(s.take(k) == s);
    } else {
        lemma_decimal_prefix(s.drop_last(), k);
        assert(s.drop_last().take(k) == s.take(k));
    }
}

/// The value of the digits of `s` as long as it fits in 32 bits, without a sign.
pub open spec fn decimal_u32(s: Seq<char>) -> Option<u32> {
    if s.len() > 0 && all_digits(s) && decimal_value(s) <= u32::MAX {
        Some(decimal_value(s) as u32)
    } else {
        None
    }
}

/// What Rust's decimal parser makes of `s` as an unsigned 32-bit number:
/// an optional `+`, then one or more digits, and a value that fits.
pub open spec fn parsed_u32(s: Seq<char>) -> Option<u32> {
    if s.len() > 0 && s.first() == '+' {
        decimal_u32(s.drop_first())
    } else {
        decimal_u32(s)
    }
}

/// What Rust's decimal parser makes of `s` as a signed 32-bit number:
/// an optional `+` or `-`, then one or more digits, and a value in range.
pub open spec fn parsed_i32(s: Seq<char>) -> Option<i32> {
    if s.len() > 0 && s.first() == '-' {
        let d = s.drop_first();
        if d.len() > 0 && all_digits(d) && decimal_value(d) <= 0x8000_0000 {
            Some((0 - decimal_value(d)) as i32)
        } else {
            None
        }
    } else {
        let d = if s.len() > 0 && s.first() == '+' {
            s.drop_first()
        } else {
            s
        };
        if d.len() > 0 && all_digits(d) && decimal_value(d) <= i32::MAX {
            Some(decimal_value(d) as i32)
        } else {
            None
        }
    }
}

/// The value of the digits `v[from..]` if they are digits, at least one, and
/// write a number of at most `limit`.
fn parse_digits(v: &Vec<char>, from: usize, limit: u64) -> (r: Option<u64>)
    requires
        from <= v.len(),
        limit <= 0xFFFF_FFFF,
    ensures
        ({
            let d = v@.subrange(from as int, v.len() as int);
            r == if d.len() > 0 && all_digits(d) && decimal_value(d) <= limit {
                Some(decimal_value(d) as u64)
            } else {
                None::<u64>
            }
        }),
{
    let n = v.len();
    let ghost d = v@.subrange(from as int, n as int);
    if from == n {
        return None;
    }
    let mut acc: u64 = 0;
    let mut i: usize = from;
    while i < n
        invariant
            from <= i <= n == v.len(),
            d == v@.subrange(from as int, n as int),
            all_digits(d.take(i - from)),
            acc == decimal_value(d.take(i - from)),
            acc <= limit <= 0xFFFF_FFFF,
        decreases n - i,
    {
        let c: u32 = v[i] as u32;
        assert(d[i - from] == v@[i as int]);
        if c < 0x30 || c > 0x39 {
            assert(!is_digit(d[i - from]));
            return None;
        }
        let next: u64 = acc * 10 + (c - 0x30) as u64;
        proof {
            let longer = d.take(i - from + 1);
            assert(longer.drop_last() == d.take(i - from));
            assert(longer.last() == d[i - from]);
            assert(all_digits(longer)) by {
                assert forall|j: int| 0 <= j < longer.len() implies is_digit(
                    #[trigger] longer[j],
                ) by {
                    if j < i - from {
                        assert(longer[j] == d.take(i - from)[j]);
                    }
                }
            }
            assert(next == decimal_value(longer));
        }
        if next > limit {
            proof {
                lemma_decimal_prefix(d, i - from + 1);
            }
            return None;
        }
        acc = next;
        i += 1;
    }
    assert(d.take(n - from) == d);
    Some(acc)
}

/// Parses `v` as Rust parses an unsigned 32-bit decimal number.
pub fn parse_u32(v: &Vec<char>) -> (r: Option<u32>)
    ensures
        r == parsed_u32(v@),
{
    let from: usize = if v.len() > 0 && v[0] == '+' {
        1
    } else {
        0
    };
    assert(v@.subrange(0, v.len() as int) == v@);
    assert(v@.subrange(1, v.len() as int) == v@.drop_first()) by {
        if v.len() == 0 {
        }
    }
    match parse_digits(v, from, 0xFFFF_FFFF) {
        Some(n) => Some(n as u32),
        None => None,
    }
}

/// Parses `v` as Rust parses a signed 32-bit decimal number.
pub fn parse_i32(v: &Vec<char>) -> (r: Option<i32>)
    ensures
        r == parsed_i32(v@),
{
    assert(v@.subrange(0, v.len() as int) == v@);
    if v.len() > 0 && v[0] == '-' {
        assert(v@.subrange(1, v.len() as int) == v@.drop_first());
        match parse_digits(v, 1, 0x8000_0000) {
            Some(n) => Some((0 - n as i64) as i32),
            None => None,
        }
    } else {
        let from: usize = if v.len() > 0 && v[0] == '+' {
            1
        } else {
            0
        };
        if from == 1 {
            assert(v@.subrange(1, v.len() as int) == v@.drop_first());
        }
        match parse_digits(v, from, 0x7FFF_FFFF) {
            Some(n) => Some(n as i32),
            None => None,
        }
    }
}

/// The decimal digits that write `n`, without leading zeros (`0` for zero).
pub open spec fn digits_of(n: nat) -> Seq<char>
    decreases n,
{
    if n < 10 {
        seq![digit_char(n)]
    } else {
        digits_of(n / 10).push(digit_char(n % 10))
    }
}

/// The digit character for a value below ten.
pub open spec fn digit_char(d: nat) -> char {
    (0x30 + d) as u8 as char
}

/// The digits of a number are digits, and they write that number.
pub proof fn lemma_digits_round_trip(n: nat)
    ensures
        digits_of(n).len() > 0,
        all_digits(digits_of(n)),
        decimal_value(digits_of(n)) == n,
    decreases n,
{
    if n < 10 {
        let s = digits_of(n);
        assert(s.drop_last() == Seq::<char>::empty());
        assert(decimal_value(s.drop_last()) == 0);
        assert(s.last() == digit_char(n));
    } else {
        lemma_digits_round_trip(n / 10);
        let s = digits_of(n);
        assert(s.drop_last() == digits_of(n / 10));
        assert(s.last() == digit_char(n % 10));
    }
}

/// Writes `n` in decimal.
pub fn decimal_digits(n: u64) -> (r: Vec<char>)
    ensures
        r@ == digits_of(n as nat),
    decreases n,
{
    let last: u8 = (n % 10) as u8;
    let c: char = (0x30 + last) as char;
    if n < 10 {
        let mut r: Vec<char> = Vec::new();
        r.push(c);
        assert(r@ == seq![c]);
        r
    } else {
        let mut r = decimal_digits(n / 10);
        r.push(c);
        r
    }
}

/// Characters that differ at most in case are both white space or neither,
/// and both equal to a character that is no letter or neither.
pub proof fn lemma_case_keeps_kind(x: char, y: char, sep: char)
    requires
        ascii_lower(x) == ascii_lower(y),
        !('a' <= sep && sep <= 'z') && !('A' <= sep && sep <= 'Z'),
    ensures
        is_space(x) == is_space(y),
        (x == sep) == (y == sep),
        x <= '\u{7f}' ==> ascii_lower(x) <= '\u{7f}',
{
}

/// Strings that differ at most in case are split at the same places, into
/// parts that differ at most in case.
pub proof fn lemma_split_same_case(a: Seq<char>, b: Seq<char>, sep: char)
    requires
        same_but_case(a, b),
        !('a' <= sep && sep <= 'z') && !('A' <= sep && sep <= 'Z'),
    ensures
        split_on(a, sep).len() == split_on(b, sep).len(),
        forall|k: int|
            0 <= k < split_on(a, sep).len() ==> same_but_case(
                #[trigger] split_on(a, sep)[k],
                split_on(b, sep)[k],
            ),
    decreases a.len(),
{
    if a.len() > 0 {
        let a0 = a.drop_last();
        let b0 = b.drop_last();
        assert(same_but_case(a0, b0)) by {
            assert forall|i: int| 0 <= i < a0.len() implies ascii_lower(#[trigger] a0[i])
                == ascii_lower(b0[i]) by {
                assert(a0[i] == a[i] && b0[i] == b[i]);
            }
        }
        lemma_split_same_case(a0, b0, sep);
        lemma_split_nonempty(a0, sep);
        lemma_split_nonempty(b0, sep);
        assert(ascii_lower(a[a.len() - 1]) == ascii_lower(b[a.len() - 1]));
        lemma_case_keeps_kind(a.last(), b.last(), sep);
        let pa0 = split_on(a0, sep);
        let pb0 = split_on(b0, sep);
        let pa = split_on(a, sep);
        let pb = split_on(b, sep);
        assert forall|k: int| 0 <= k < pa.len() implies same_but_case(#[trigger] pa[k], pb[k]) by {
            if a.last() == sep {
                if k < pa0.len() {
                    assert(pa[k] == pa0[k] && pb[k] == pb0[k]);
                }
            } else {
                if k < pa0.len() - 1 {
                    assert(pa[k] == pa0[k] && pb[k] == pb0[k]);
                } else {
                    let la = pa0.last();
                    let lb = pb0.last();
                    assert(same_but_case(la, lb));
                    assert(pa[k] == la.push(a.last()) && pb[k] == lb.push(b.last()));
                    assert forall|i: int| 0 <= i < pa[k].len() implies ascii_lower(
                        #[trigger] pa[k][i],
                    ) == ascii_lower(pb[k][i]) by {
                        if i < la.len() {
                            assert(pa[k][i] == la[i] && pb[k][i] == lb[i]);
                        }
                    }
                }
            }
        }
    }
}

/// The parts of a string of ASCII characters are strings of ASCII characters.
pub proof fn lemma_split_ascii(a: Seq<char>, sep: char)
    requires
        is_ascii(a),
    ensures
        forall|k: int| 0 <= k < split_on(a, sep).len() ==> is_ascii(#[trigger] split_on(a, sep)[k]),
    decreases a.len(),
{
    if a.len() > 0 {
        let a0 = a.drop_last();
        assert(is_ascii(a0)) by {
            assert forall|i: int| 0 <= i < a0.len() implies (#[trigger] a0[i]) <= '\u{7f}' by {
                assert(a0[i] == a[i]);
            }
        }
        lemma_split_ascii(a0, sep);
        lemma_split_nonempty(a0, sep);
        let p0 = split_on(a0, sep);
        let p = split_on(a, sep);
        assert(a[a.len() - 1] <= '\u{7f}');
        assert forall|k: int| 0 <= k < p.len() implies is_ascii(#[trigger] p[k]) by {
            if a.last() == sep {
                if k < p0.len() {
                    assert(p[k] == p0[k]);
                }
            } else {
                if k < p0.len() - 1 {
                    assert(p[k] == p0[k]);
                } else {
                    assert(is_ascii(p0.last()));
                    assert(p[k] == p0.last().push(a.last()));
                    assert forall|i: int| 0 <= i < p[k].len() implies (#[trigger] p[k][i])
                        <= '\u{7f}' by {
                        if i < p0.last().len() {
                            assert(p[k][i] == p0.last()[i]);
                        }
                    }
                }
            }
        }
    }
}

/// Strings that differ at most in case have the same white space at
/// their beginning, and what follows differs at most in case.
pub proof fn lemma_trim_start_same_case(a: Seq<char>, b: Seq<char>)
    requires
        same_but_case(a, b),
    ensures
        same_but_case(trim_start_of(a), trim_start_of(b)),
        is_ascii(a) ==> is_ascii(trim_start_of(a)),
        is_ascii(b) ==> is_ascii(trim_start_of(b)),
    decreases a.len(),
{
    if a.len() > 0 {
        assert(ascii_lower(a[0]) == ascii_lower(b[0]));
        lemma_case_keeps_kind(a[0], b[0], ' ');
        if is_space(a.first()) {
            let a0 = a.drop_first();
            let b0 = b.drop_first();
            assert(same_but_case(a0, b0)) by {
                assert forall|i: int| 0 <= i < a0.len() implies ascii_lower(#[trigger] a0[i])
                    == ascii_lower(b0[i]) by {
                    assert(a0[i] == a[i + 1] && b0[i] == b[i + 1]);
                }
            }
            if is_ascii(a) {
                assert forall|i: int| 0 <= i < a0.len() implies (#[trigger] a0[i]) <= '\u{7f}' by {
                    assert(a0[i] == a[i + 1]);
                }
            }
            if is_ascii(b) {
                assert forall|i: int| 0 <= i < b0.len() implies (#[trigger] b0[i]) <= '\u{7f}' by {
                    assert(b0[i] == b[i + 1]);
                }
            }
            lemma_trim_start_same_case(a0, b0);
        }
    }
}

/// Strings that differ at most in case have the same white space at
/// their end, and what stands before differs at most in case.
pub proof fn lemma_trim_end_same_case(a: Seq<char>, b: Seq<char>)
    requires
        same_but_case(a, b),
    ensures
        same_but_case(trim_end_of(a), trim_end_of(b)),
        is_ascii(a) ==> is_ascii(trim_end_of(a)),
        is_ascii(b) ==> is_ascii(trim_end_of(b)),
    decreases a.len(),
{
    if a.len() > 0 {
        assert(ascii_lower(a[a.len() - 1]) == ascii_lower(b[a.len() - 1]));
        lemma_case_keeps_kind(a.last(), b.last(), ' ');
        if is_space(a.last()) {
            let a0 = a.drop_last();
            let b0 = b.drop_last();
            assert(same_but_case(a0, b0)) by {
                assert forall|i: int| 0 <= i < a0.len() implies ascii_lower(#[trigger] a0[i])
                    == ascii_lower(b0[i]) by {
                    assert(a0[i] == a[i] && b0[i] == b[i]);
                }
            }
            if is_ascii(a) {
                assert forall|i: int| 0 <= i < a0.len() implies (#[trigger] a0[i]) <= '\u{7f}' by {
                    assert(a0[i] == a[i]);
                }
            }
            if is_ascii(b) {
                assert forall|i: int| 0 <= i < b0.len() implies (#[trigger] b0[i]) <= '\u{7f}' by {
                    assert(b0[i] == b[i]);
                }
            }
            lemma_trim_end_same_case(a0, b0);
        }
    }
}

/// Strings that differ at most in case still do so without the white
/// space around them.
pub proof fn lemma_trimmed_same_case(a: Seq<char>, b: Seq<char>)
    requires
        same_but_case(a, b),
    ensures
        same_but_case(trimmed(a), trimmed(b)),
        is_ascii(a) ==> is_ascii(trimmed(a)),
        is_ascii(b) ==> is_ascii(trimmed(b)),
{
    lemma_trim_start_same_case(a, b);
    lemma_trim_end_same_case(trim_start_of(a), trim_start_of(b));
}

} // verus!
