//! Character and string primitives the routing stages are built on.
//!
//! Everything here works over `Seq<char>` views: a string is the sequence of
//! its Unicode scalar values, as `str::chars` yields them.

use vstd::prelude::*;

verus! {

/// What `char::is_alphanumeric` answers for `c` (Unicode `Alphabetic` or
/// `Numeric`).
pub uninterp spec fn char_is_alphanumeric(c: char) -> bool;

/// What `str::to_lowercase` produces for a string: its Unicode lowercase
/// form (a character may map to several, and a final sigma depends on its
/// neighbours).
pub uninterp spec fn lowercase(s: Seq<char>) -> Seq<char>;

/// Whether `std::path::Path` considers the two paths equal (it compares them
/// component by component).
pub uninterp spec fn same_path(a: Seq<char>, b: Seq<char>) -> bool;

/// Calls `char::is_alphanumeric`; the contract names its answer.
#[verifier::external_body]
pub fn is_alphanumeric(c: char) -> (r: bool)
    ensures
        r == char_is_alphanumeric(c),
{
    c.is_alphanumeric()
}

/// Calls `str::to_lowercase`; the contract names its result.
#[verifier::external_body]
pub fn to_lowercase(s: &str) -> (r: String)
    ensures
        r@ == lowercase(s@),
{
    s.to_lowercase()
}

/// Calls `String::push`: the character is appended.
#[verifier::external_body]
pub fn push_char(s: &mut String, c: char)
    ensures
        final(s)@ == old(s)@.push(c),
{
    s.push(c)
}

/// Compares two paths with `Path`'s equality; the contract names the answer
/// and states that `Path` implements `Eq`, so a path equals itself.
#[verifier::external_body]
pub fn paths_equal(a: &str, b: &str) -> (r: bool)
    ensures
        r == same_path(a@, b@),
        a@ == b@ ==> r,
{
    std::path::Path::new(a) == std::path::Path::new(b)
}

/// The ASCII lowercase of one character; every other character is unchanged.
pub open spec fn ascii_lower(c: char) -> char {
    if 'A' <= c && c <= 'Z' {
        ((c as u32) + 32) as char
    } else {
        c
    }
}

/// The ASCII lowercase of every character of `s`, as `str::to_ascii_lowercase`.
pub open spec fn ascii_lower_seq(s: Seq<char>) -> Seq<char> {
    s.map_values(|c: char| ascii_lower(c))
}

/// Whether `t` occurs in `s` starting at position `i`.
pub open spec fn occurs_at(s: Seq<char>, t: Seq<char>, i: int) -> bool {
    0 <= i && i + t.len() <= s.len() && s.subrange(i, i + t.len()) == t
}

/// Whether `t` is a substring of `s`, as `str::contains` with a string pattern.
pub open spec fn contains_seq(s: Seq<char>, t: Seq<char>) -> bool {
    exists|i: int| occurs_at(s, t, i)
}

/// Whether `s` starts with `p`.
pub open spec fn starts_with(s: Seq<char>, p: Seq<char>) -> bool {
    p.len() <= s.len() && s.subrange(0, p.len() as int) == p
}

/// The decimal digit character for `d < 10`.
pub open spec fn digit_char(d: nat) -> char {
    if d == 0 { '0' }
    else if d == 1 { '1' }
    else if d == 2 { '2' }
    else if d == 3 { '3' }
    else if d == 4 { '4' }
    else if d == 5 { '5' }
    else if d == 6 { '6' }
    else if d == 7 { '7' }
    else if d == 8 { '8' }
    else { '9' }
}

/// The decimal rendering of `n`, as `Display` prints an unsigned integer.
pub open spec fn decimal(n: nat) -> Seq<char>
    decreases n,
{
    if n < 10 {
        seq![digit_char(n)]
    } else {
        decimal(n / 10).push(digit_char(n % 10))
    }
}

/// The ASCII lowercase of one character (`char::to_ascii_lowercase`).
pub fn ascii_lower_char(c: char) -> (r: char)
    ensures
        r == ascii_lower(c),
{
    if 'A' <= c && c <= 'Z' {
        let code: u32 = c as u32;
        let lowered: u8 = (code + 32) as u8;
        lowered as char
    } else {
        c
    }
}

/// The ASCII lowercase of every character of `s` (`str::to_ascii_lowercase`).
pub fn ascii_lowercase(s: &str) -> (r: String)
    ensures
        r@ == ascii_lower_seq(s@),
{
    let chars = chars_of(s);
    let mut r = String::new();
    let mut i: usize = 0;
    while i < chars.len()
        invariant
            i <= chars.len(),
            chars@ == s@,
            r@ == ascii_lower_seq(chars@.subrange(0, i as int)),
        decreases chars.len() - i,
    {
        push_char(&mut r, ascii_lower_char(chars[i]));
        assert(ascii_lower_seq(chars@.subrange(0, i + 1)) =~= ascii_lower_seq(chars@.subrange(0, i as int)).push(ascii_lower(chars@[i as int])));
        i = i + 1;
    }
    assert(chars@.subrange(0, chars@.len() as int) =~= chars@);
    r
}

/// The pieces of `s` between occurrences of `sep` (`str::split` with a
/// character pattern).
pub fn split(s: &str, sep: char) -> (r: Vec<String>)
    ensures
        r.deep_view() == split_on(s@, sep),
{
    let chars = chars_of(s);
    let mut out: Vec<String> = Vec::new();
    let mut start: usize = 0;
    let mut i: usize = 0;
    proof {
        assert(chars@.subrange(0, 0) =~= Seq::<char>::empty());
        assert(out.deep_view() =~= split_on(chars@.subrange(0, 0), sep).drop_last());
    }
    while i < chars.len()
        invariant
            start <= i <= chars.len(),
            chars@ == s@,
            split_on(chars@.subrange(0, i as int), sep).len() >= 1,
            split_on(chars@.subrange(0, i as int), sep).last() == chars@.subrange(start as int, i as int),
            out.deep_view() == split_on(chars@.subrange(0, i as int), sep).drop_last(),
        decreases chars.len() - i,
    {
        let ghost before = split_on(chars@.subrange(0, i as int), sep);
        let ghost next = chars@.subrange(0, i + 1);
        assert(next.drop_last() =~= chars@.subrange(0, i as int));
        assert(next.last() == chars@[i as int]);
        if chars[i] == sep {
            let piece = string_from(&chars, start, i);
            let ghost old_out = out.deep_view();
            out.push(piece);
            assert(out.deep_view() =~= old_out.push(piece@));
            start = i + 1;
            proof {
                let after = split_on(next, sep);
                assert(after == before.push(Seq::<char>::empty()));
                assert(after.drop_last() =~= before);
                assert(before.drop_last().push(before.last()) =~= before);
                assert(chars@.subrange(start as int, i + 1) =~= Seq::<char>::empty());
            }
        } else {
            proof {
                let after = split_on(next, sep);
                assert(after == before.update(before.len() - 1, before.last().push(chars@[i as int])));
                assert(after.drop_last() =~= before.drop_last());
                assert(chars@.subrange(start as int, i + 1) =~= chars@.subrange(start as int, i as int).push(chars@[i as int]));
            }
        }
        i = i + 1;
    }
    proof {
        assert(chars@.subrange(0, chars@.len() as int) =~= chars@);
    }
    let last = string_from(&chars, start, chars.len());
    let ghost old_out = out.deep_view();
    out.push(last);
    proof {
        let pieces = split_on(chars@, sep);
        assert(out.deep_view() =~= old_out.push(last@));
        assert(pieces.drop_last().push(pieces.last()) =~= pieces);
    }
    out
}

/// The characters of `s`, in order.
pub fn chars_of(s: &str) -> (v: Vec<char>)
    ensures
        v@ == s@,
{
    let n = s.unicode_len();
    let mut v: Vec<char> = Vec::new();
    let mut i: usize = 0;
    while i < n
        invariant
            n == s@.len(),
            i <= n,
            v@ == s@.subrange(0, i as int),
        decreases n - i,
    {
        v.push(s.get_char(i));
        i = i + 1;
    }
    assert(v@ == s@);
    v
}

/// The string made of the characters `chars[from..to]`.
pub fn string_from(chars: &Vec<char>, from: usize, to: usize) -> (r: String)
    requires
        from <= to <= chars.len(),
    ensures
        r@ == chars@.subrange(from as int, to as int),
{
    let mut r = String::new();
    let mut i = from;
    while i < to
        invariant
            from <= i <= to <= chars.len(),
            r@ == chars@.subrange(from as int, i as int),
        decreases to - i,
    {
        push_char(&mut r, chars[i]);
        i = i + 1;
    }
    r
}

/// Whether two strings hold the same characters.
pub fn str_eq(a: &str, b: &str) -> (r: bool)
    ensures
        r == (a@ == b@),
{
    let x = String::from_str(a);
    let y = String::from_str(b);
    x == y
}

/// Whether `t` occurs in `s` at position `i`.
pub fn occurs_at_exec(s: &Vec<char>, t: &Vec<char>, i: usize) -> (r: bool)
    ensures
        r == occurs_at(s@, t@, i as int),
{
    if i > s.len() || t.len() > s.len() - i {
        return false;
    }
    let mut k: usize = 0;
    while k < t.len()
        invariant
            i + t.len() <= s.len(),
            k <= t.len(),
            forall|j: int| 0 <= j < k ==> s@[i + j] == t@[j],
        decreases t.len() - k,
    {
        if s[i + k] != t[k] {
            assert(s@.subrange(i as int, i + t.len())[k as int] != t@[k as int]);
            return false;
        }
        k = k + 1;
    }
    assert(s@.subrange(i as int, i + t.len()) =~= t@);
    true
}

/// Whether `t` is a substring of `s` (`str::contains`).
pub fn contains_chars(s: &Vec<char>, t: &Vec<char>) -> (r: bool)
    ensures
        r == contains_seq(s@, t@),
{
    if t.len() > s.len() {
        assert(forall|i: int| !occurs_at(s@, t@, i));
        return false;
    }
    let last = s.len() - t.len();
    let mut i: usize = 0;
    while i < last
        invariant
            last == s.len() - t.len(),
            i <= last,
            forall|j: int| 0 <= j < i ==> !occurs_at(s@, t@, j),
        decreases last - i,
    {
        if occurs_at_exec(s, t, i) {
            return true;
        }
        i = i + 1;
    }
    if occurs_at_exec(s, t, last) {
        return true;
    }
    assert forall|j: int| !occurs_at(s@, t@, j) by {
        if 0 <= j && j + t@.len() <= s@.len() {
            assert(j <= last);
        }
    }
    false
}

/// Whether `s` starts with the characters of `p`.
pub fn starts_with_exec(s: &Vec<char>, p: &Vec<char>) -> (r: bool)
    ensures
        r == starts_with(s@, p@),
{
    let r = occurs_at_exec(s, p, 0);
    proof {
        if r {
            assert(starts_with(s@, p@));
        }
    }
    r
}

/// The character of digit `d`.
pub fn digit(d: usize) -> (c: char)
    requires
        d < 10,
    ensures
        c == digit_char(d as nat),
{
    if d == 0 { '0' }
    else if d == 1 { '1' }
    else if d == 2 { '2' }
    else if d == 3 { '3' }
    else if d == 4 { '4' }
    else if d == 5 { '5' }
    else if d == 6 { '6' }
    else if d == 7 { '7' }
    else if d == 8 { '8' }
    else { '9' }
}

/// Renders `n` in decimal.
pub fn decimal_string(n: usize) -> (r: String)
    ensures
        r@ == decimal(n as nat),
    decreases n,
{
    if n < 10 {
        let mut r = String::new();
        push_char(&mut r, digit(n));
        r
    } else {
        let mut r = decimal_string(n / 10);
        push_char(&mut r, digit(n % 10));
        r
    }
}

/// The pieces of `s` between occurrences of `sep`, as `str::split` with a
/// character pattern yields them: always at least one piece.
pub open spec fn split_on(s: Seq<char>, sep: char) -> Seq<Seq<char>>
    decreases s.len(),
{
    if s.len() == 0 {
        seq![Seq::<char>::empty()]
    } else {
        let pieces = split_on(s.drop_last(), sep);
        if s.last() == sep {
            pieces.push(Seq::<char>::empty())
        } else {
            pieces.update(pieces.len() - 1, pieces.last().push(s.last()))
        }
    }
}

/// A line terminated by `\n` loses a trailing `\r` too.
pub open spec fn strip_cr(line: Seq<char>) -> Seq<char> {
    if line.len() > 0 && line.last() == '\r' {
        line.drop_last()
    } else {
        line
    }
}

/// The lines of `s`, as `str::lines` yields them: split at `\n` (a `\r`
/// before it is dropped too), with no line after a final line ending.
pub open spec fn spec_lines(s: Seq<char>) -> Seq<Seq<char>> {
    let pieces = split_on(s, '\n');
    let terminated = pieces.drop_last().map_values(|line: Seq<char>| strip_cr(line));
    if pieces.last().len() == 0 {
        terminated
    } else {
        terminated.push(pieces.last())
    }
}

/// The first position at which `t` occurs in `s`, if any.
pub open spec fn first_occurrence(s: Seq<char>, t: Seq<char>) -> Option<int> {
    if contains_seq(s, t) {
        Some(choose|i: int| occurs_at(s, t, i) && forall|j: int| 0 <= j < i ==> !occurs_at(s, t, j))
    } else {
        None
    }
}

/// A split of any text has at least one piece.
pub proof fn lemma_split_on_nonempty(s: Seq<char>, sep: char)
    ensures
        split_on(s, sep).len() >= 1,
    decreases s.len(),
{
    if s.len() > 0 {
        lemma_split_on_nonempty(s.drop_last(), sep);
    }
}

/// The line ending `\r` is dropped from a line.
pub fn strip_cr_exec(chars: &Vec<char>, from: usize, to: usize) -> (r: String)
    requires
        from <= to <= chars.len(),
    ensures
        r@ == strip_cr(chars@.subrange(from as int, to as int)),
{
    if from < to && chars[to - 1] == '\r' {
        let r = string_from(chars, from, to - 1);
        assert(chars@.subrange(from as int, to - 1) =~= chars@.subrange(from as int, to as int).drop_last());
        r
    } else {
        string_from(chars, from, to)
    }
}

/// The lines of `s` (`str::lines`).
pub fn lines(s: &str) -> (r: Vec<String>)
    ensures
        r.deep_view() == spec_lines(s@),
{
    let chars = chars_of(s);
    let mut out: Vec<String> = Vec::new();
    let mut start: usize = 0;
    let mut i: usize = 0;
    proof {
        assert(chars@.subrange(0, 0) =~= Seq::<char>::empty());
        assert(out.deep_view() =~= Seq::<Seq<char>>::empty());
        assert(split_on(chars@.subrange(0, 0), '\n').drop_last().map_values(|line: Seq<char>| strip_cr(line)) =~= Seq::<Seq<char>>::empty());
    }
    while i < chars.len()
        invariant
            start <= i <= chars.len(),
            chars@ == s@,
            split_on(chars@.subrange(0, i as int), '\n').len() >= 1,
            split_on(chars@.subrange(0, i as int), '\n').last() == chars@.subrange(start as int, i as int),
            out.deep_view() == split_on(chars@.subrange(0, i as int), '\n').drop_last().map_values(|line: Seq<char>| strip_cr(line)),
        decreases chars.len() - i,
    {
        let ghost before = split_on(chars@.subrange(0, i as int), '\n');
        let ghost next = chars@.subrange(0, i + 1);
        assert(next.drop_last() =~= chars@.subrange(0, i as int));
        assert(next.last() == chars@[i as int]);
        if chars[i] == '\n' {
            let line = strip_cr_exec(&chars, start, i);
            let ghost old_out = out.deep_view();
            out.push(line);
            assert(out.deep_view() =~= old_out.push(line@));
            start = i + 1;
            proof {
                let after = split_on(next, '\n');
                assert(after == before.push(Seq::<char>::empty()));
                assert(after.drop_last() =~= before);
                assert(before.drop_last().push(before.last()) =~= before);
                assert(after.drop_last().map_values(|line: Seq<char>| strip_cr(line)) =~= old_out.push(line@));
                assert(chars@.subrange(start as int, i + 1) =~= Seq::<char>::empty());
            }
        } else {
            proof {
                let after = split_on(next, '\n');
                assert(after == before.update(before.len() - 1, before.last().push(chars@[i as int])));
                assert(after.drop_last() =~= before.drop_last());
                assert(chars@.subrange(start as int, i + 1) =~= chars@.subrange(start as int, i as int).push(chars@[i as int]));
            }
        }
        i = i + 1;
    }
    proof {
        assert(chars@.subrange(0, chars@.len() as int) =~= chars@);
    }
    if start < chars.len() {
        let line = string_from(&chars, start, chars.len());
        let ghost old_out = out.deep_view();
        out.push(line);
        assert(out.deep_view() =~= old_out.push(line@));
    }
    out
}

/// The first position at which `t` occurs in `s` (`str::find`).
pub fn find_chars(s: &Vec<char>, t: &Vec<char>) -> (r: Option<usize>)
    ensures
        match r {
            Some(i) => first_occurrence(s@, t@) == Some(i as int) && occurs_at(s@, t@, i as int),
            None => first_occurrence(s@, t@) is None,
        },
{
    if t.len() > s.len() {
        assert(forall|i: int| !occurs_at(s@, t@, i));
        return None;
    }
    let last = s.len() - t.len();
    let mut i: usize = 0;
    while i < last
        invariant
            last == s.len() - t.len(),
            i <= last,
            forall|j: int| 0 <= j < i ==> !occurs_at(s@, t@, j),
        decreases last - i,
    {
        if occurs_at_exec(s, t, i) {
            proof {
                let k = choose|k: int| occurs_at(s@, t@, k) && forall|j: int| 0 <= j < k ==> !occurs_at(s@, t@, j);
                if k < i {
                } else if i < k {
                    assert(!occurs_at(s@, t@, i as int));
                }
            }
            return Some(i);
        }
        i = i + 1;
    }
    if occurs_at_exec(s, t, last) {
        proof {
            let k = choose|k: int| occurs_at(s@, t@, k) && forall|j: int| 0 <= j < k ==> !occurs_at(s@, t@, j);
            if k < last {
            } else if last < k {
                assert(!occurs_at(s@, t@, last as int));
            }
        }
        return Some(last);
    }
    assert forall|j: int| !occurs_at(s@, t@, j) by {
        if 0 <= j && j + t@.len() <= s@.len() {
            assert(j <= last);
        }
    }
    None
}

} // verus!
