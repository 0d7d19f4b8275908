//! Verified utilities over character sequences.
//!
//! The parsers in this crate work on `Vec<char>` so that every step of the
//! string handling is visible to the verifier; these helpers give the basic
//! operations (splitting, searching, trimming, numeric conversion) exact
//! contracts over `Seq<char>`.

use vstd::prelude::*;

verus! {

/// True for the ASCII whitespace characters recognized by `trim_spaces`.
pub open spec fn is_space(c: char) -> bool {
    c == ' ' || c == '\t' || c == '\n' || c == '\r'
}

/// True for an ASCII decimal digit.
pub open spec fn is_digit(c: char) -> bool {
    '0' <= c && c <= '9'
}

/// The numeric value of an ASCII decimal digit.
pub open spec fn digit_val(c: char) -> int {
    c as int - '0' as int
}

/// The digit character for a value below ten.
pub open spec fn digit_char(n: int) -> char {
    ((n + '0' as int) as u32) as char
}

/// The value of a digit string, most significant first.
pub open spec fn digits_value(s: Seq<char>) -> int
    decreases s.len(),
{
    if s.len() == 0 {
        0
    } else {
        digits_value(s.drop_last()) * 10 + digit_val(s.last())
    }
}

/// True when every character of `s` is a decimal digit.
pub open spec fn all_digits(s: Seq<char>) -> bool {
    forall|i: int| 0 <= i < s.len() ==> is_digit(#[trigger] s[i])
}

/// The decimal digit sequence of a natural number.
pub open spec fn dec_digits(n: int) -> Seq<char>
    decreases n,
{
    if n < 10 {
        seq![digit_char(n)]
    } else {
        dec_digits(n / 10).push(digit_char(n % 10))
    }
}

/// The decimal rendering of an integer, with a leading minus for negatives.
pub open spec fn int_chars(n: int) -> Seq<char> {
    if n < 0 {
        seq!['-'] + dec_digits(-n)
    } else {
        dec_digits(n)
    }
}

/// Convert a string slice to its character vector.
pub fn str_chars(s: &str) -> (r: Vec<char>)
    ensures
        r@ == s@,
{
    let n: usize = s.unicode_len();
    let mut r: Vec<char> = Vec::new();
    let mut i: usize = 0;
    while i < n
        invariant
            i <= n,
            n == s@.len(),
            r@ == s@.take(i as int),
        decreases n - i,
    {
        r.push(s.get_char(i));
        i += 1;
    }
    proof {
        assert(r@ =~= s@);
    }
    r
}

/// Compare a character vector with a string slice.
pub fn chars_eq_str(v: &Vec<char>, s: &str) -> (r: bool)
    ensures
        r == (v@ == s@),
{
    let n: usize = s.unicode_len();
    if v.len() != n {
        proof {
            assert(v@ != s@);
        }
        return false;
    }
    let mut i: usize = 0;
    while i < n
        invariant
            i <= n,
            n == s@.len(),
            v@.len() == n,
            forall|j: int| 0 <= j < i ==> v@[j] == s@[j],
        decreases n - i,
    {
        if v[i] != s.get_char(i) {
            proof {
                assert(v@ != s@);
            }
            return false;
        }
        i += 1;
    }
    proof {
        assert(v@ =~= s@);
    }
    true
}

/// Compare two character vectors.
pub fn chars_eq(a: &Vec<char>, b: &Vec<char>) -> (r: bool)
    ensures
        r == (a@ == b@),
{
    if a.len() != b.len() {
        proof {
            assert(a@ != b@);
        }
        return false;
    }
    let mut i: usize = 0;
    while i < a.len()
        invariant
            i <= a.len(),
            a.len() == b.len(),
            forall|j: int| 0 <= j < i ==> a@[j] == b@[j],
        decreases a.len() - i,
    {
        if a[i] != b[i] {
            proof {
                assert(a@ != b@);
            }
            return false;
        }
        i += 1;
    }
    proof {
        assert(a@ =~= b@);
    }
    true
}

/// Copy the characters of `v` between `from` and `to`.
pub fn subchars(v: &Vec<char>, from: usize, to: usize) -> (r: Vec<char>)
    requires
        from <= to <= v@.len(),
    ensures
        r@ == v@.subrange(from as int, to as int),
{
    let mut r: Vec<char> = Vec::new();
    let mut i: usize = from;
    while i < to
        invariant
            from <= i <= to <= v@.len(),
            r@ == v@.subrange(from as int, i as int),
        decreases to - i,
    {
        r.push(v[i]);
        proof {
            assert(r@ =~= v@.subrange(from as int, i + 1 as int));
        }
        i += 1;
    }
    r
}

/// Append every character of `src` to `dst`.
pub fn append_chars(dst: &mut Vec<char>, src: &Vec<char>)
    ensures
        final(dst)@ == old(dst)@ + src@,
{
    let mut i: usize = 0;
    while i < src.len()
        invariant
            i <= src.len(),
            dst@ == old(dst)@ + src@.take(i as int),
        decreases src.len() - i,
    {
        dst.push(src[i]);
        proof {
            assert(dst@ =~= old(dst)@ + src@.take(i + 1 as int));
        }
        i += 1;
    }
    proof {
        assert(dst@ =~= old(dst)@ + src@);
    }
}

/// Find the first position of `c` in `v`.
pub fn find_char(v: &Vec<char>, c: char) -> (r: Option<usize>)
    ensures
        match r {
            Some(i) => i < v@.len() && v@[i as int] == c && (forall|j: int|
                0 <= j < i ==> v@[j] != c),
            None => forall|j: int| 0 <= j < v@.len() ==> v@[j] != c,
        },
{
    let mut i: usize = 0;
    while i < v.len()
        invariant
            i <= v@.len(),
            forall|j: int| 0 <= j < i ==> v@[j] != c,
        decreases v.len() - i,
    {
        if v[i] == c {
            return Some(i);
        }
        i += 1;
    }
    None
}

/// Whether `c` occurs in `s`.
pub open spec fn has_char(s: Seq<char>, c: char) -> bool {
    exists|i: int| 0 <= i < s.len() && s[i] == c
}

/// Test whether `c` occurs in `v`.
pub fn contains_char(v: &Vec<char>, c: char) -> (r: bool)
    ensures
        r == has_char(v@, c),
{
    match find_char(v, c) {
        Some(i) => {
            proof {
                assert(has_char(v@, c)) by {
                    assert(0 <= i < v@.len() && v@[i as int] == c);
                }
            }
            true
        },
        None => {
            proof {
                assert(!has_char(v@, c));
            }
            false
        },
    }
}

/// How many times `c` occurs in `s`.
pub open spec fn count_char(s: Seq<char>, c: char) -> int
    decreases s.len(),
{
    if s.len() == 0 {
        0
    } else {
        count_char(s.drop_last(), c) + if s.last() == c {
            1int
        } else {
            0int
        }
    }
}

/// Count the occurrences of `c` in `v`.
pub fn count_char_in(v: &Vec<char>, c: char) -> (r: usize)
    ensures
        r == count_char(v@, c),
{
    let mut n: usize = 0;
    let mut i: usize = 0;
    proof {
        assert(v@.take(0) =~= Seq::<char>::empty());
    }
    while i < v.len()
        invariant
            i <= v@.len(),
            n == count_char(v@.take(i as int), c),
            n <= i,
        decreases v.len() - i,
    {
        proof {
            assert(v@.take(i + 1 as int).drop_last() =~= v@.take(i as int));
            assert(v@.take(i + 1 as int).last() == v@[i as int]);
        }
        if v[i] == c {
            n += 1;
        }
        i += 1;
    }
    proof {
        assert(v@.take(v@.len() as int) =~= v@);
    }
    n
}

/// True when `s` begins with `p`.
pub open spec fn starts_with(s: Seq<char>, p: Seq<char>) -> bool {
    p.len() <= s.len() && s.take(p.len() as int) == p
}

/// True when `s` ends with `p`.
pub open spec fn ends_with(s: Seq<char>, p: Seq<char>) -> bool {
    p.len() <= s.len() && s.skip(s.len() - p.len()) == p
}

/// Test whether `v` begins with the literal `p`.
pub fn starts_with_str(v: &Vec<char>, p: &str) -> (r: bool)
    ensures
        r == starts_with(v@, p@),
{
    let n: usize = p.unicode_len();
    if v.len() < n {
        return false;
    }
    let mut i: usize = 0;
    while i < n
        invariant
            i <= n,
            n == p@.len(),
            n <= v@.len(),
            forall|j: int| 0 <= j < i ==> v@[j] == p@[j],
        decreases n - i,
    {
        if v[i] != p.get_char(i) {
            proof {
                assert(v@.take(p@.len() as int)[i as int] != p@[i as int]);
            }
            return false;
        }
        i += 1;
    }
    proof {
        assert(v@.take(p@.len() as int) =~= p@);
    }
    true
}

/// Test whether `v` ends with the literal `p`.
pub fn ends_with_str(v: &Vec<char>, p: &str) -> (r: bool)
    ensures
        r == ends_with(v@, p@),
{
    let n: usize = p.unicode_len();
    if v.len() < n {
        return false;
    }
    let base: usize = v.len() - n;
    let mut i: usize = 0;
    while i < n
        invariant
            i <= n,
            n == p@.len(),
            base == v@.len() - n,
            base + n <= usize::MAX,
            forall|j: int| 0 <= j < i ==> v@[base + j] == p@[j],
        decreases n - i,
    {
        if v[base + i] != p.get_char(i) {
            proof {
                assert(v@.skip(v@.len() - p@.len())[i as int] != p@[i as int]);
            }
            return false;
        }
        i += 1;
    }
    proof {
        assert(v@.skip(v@.len() - p@.len()) =~= p@);
    }
    true
}

/// `s` without its leading space characters.
pub open spec fn trim_start_spaces(s: Seq<char>) -> Seq<char>
    decreases s.len(),
{
    if s.len() > 0 && is_space(s[0]) {
        trim_start_spaces(s.drop_first())
    } else {
        s
    }
}

/// `s` without its trailing space characters.
pub open spec fn trim_end_spaces(s: Seq<char>) -> Seq<char>
    decreases s.len(),
{
    if s.len() > 0 && is_space(s.last()) {
        trim_end_spaces(s.drop_last())
    } else {
        s
    }
}

/// `s` without leading and trailing space characters.
pub open spec fn trim_spaces(s: Seq<char>) -> Seq<char> {
    trim_end_spaces(trim_start_spaces(s))
}

proof fn lemma_trim_start_spaces_skip(s: Seq<char>, a: int)
    requires
        0 <= a <= s.len(),
        forall|j: int| 0 <= j < a ==> is_space(s[j]),
        a == s.len() || !is_space(s[a]),
    ensures
        trim_start_spaces(s) == s.skip(a),
    decreases a,
{
    if a == 0 {
        assert(s.skip(0) =~= s);
    } else {
        assert(is_space(s[0]));
        assert(s.drop_first() =~= s.skip(1));
        lemma_trim_start_spaces_skip(s.skip(1), a - 1);
        assert(s.skip(1).skip(a - 1) =~= s.skip(a));
    }
}

proof fn lemma_trim_end_spaces_take(s: Seq<char>, b: int)
    requires
        0 <= b <= s.len(),
        forall|j: int| b <= j < s.len() ==> is_space(s[j]),
        b == 0 || !is_space(s[b - 1]),
    ensures
        trim_end_spaces(s) == s.take(b),
    decreases s.len() - b,
{
    if b == s.len() {
        assert(s.take(b) =~= s);
    } else {
        assert(is_space(s.last()));
        lemma_trim_end_spaces_take(s.drop_last(), b);
        assert(s.drop_last().take(b) =~= s.take(b));
    }
}

/// Remove leading and trailing space characters.
pub fn trim_chars(v: &Vec<char>) -> (r: Vec<char>)
    ensures
        r@ == trim_spaces(v@),
{
    let mut a: usize = 0;
    while a < v.len() && is_space_char(v[a])
        invariant
            a <= v@.len(),
            forall|j: int| 0 <= j < a ==> is_space(v@[j]),
        decreases v.len() - a,
    {
        a += 1;
    }
    proof {
        lemma_trim_start_spaces_skip(v@, a as int);
    }
    let mut b: usize = v.len();
    while b > a && is_space_char(v[b - 1])
        invariant
            a <= b <= v@.len(),
            forall|j: int| b <= j < v@.len() ==> is_space(v@[j]),
        decreases b,
    {
        b -= 1;
    }
    let r = subchars(v, a, b);
    proof {
        let t = v@.skip(a as int);
        if b == a {
            if t.len() > 0 {
                assert(is_space(t[0]));
                assert(forall|j: int| 0 <= j < t.len() ==> is_space(#[trigger] t[j]));
            }
            lemma_trim_end_spaces_take(t, 0);
        } else {
            assert(!is_space(t[b - a - 1]));
            lemma_trim_end_spaces_take(t, b - a);
        }
        assert(t.take(b - a) =~= v@.subrange(a as int, b as int));
    }
    r
}

/// Exec test for `is_space`.
pub fn is_space_char(c: char) -> (r: bool)
    ensures
        r == is_space(c),
{
    c == ' ' || c == '\t' || c == '\n' || c == '\r'
}

/// `s` with every prefix copy of `p` removed.
pub open spec fn trim_start_matches(s: Seq<char>, p: Seq<char>) -> Seq<char>
    decreases s.len(),
{
    if p.len() > 0 && starts_with(s, p) {
        trim_start_matches(s.skip(p.len() as int), p)
    } else {
        s
    }
}

/// `s` with every suffix copy of `p` removed.
pub open spec fn trim_end_matches(s: Seq<char>, p: Seq<char>) -> Seq<char>
    decreases s.len(),
{
    if p.len() > 0 && ends_with(s, p) {
        trim_end_matches(s.take(s.len() - p.len()), p)
    } else {
        s
    }
}

/// Remove every copy of `p` from the front of `v`.
pub fn trim_start_matches_str(v: &Vec<char>, p: &str) -> (r: Vec<char>)
    requires
        p@.len() > 0,
    ensures
        r@ == trim_start_matches(v@, p@),
{
    let n: usize = p.unicode_len();
    let mut cur = subchars(v, 0, v.len());
    proof {
        assert(v@.subrange(0, v@.len() as int) =~= v@);
    }
    while starts_with_str(&cur, p)
        invariant
            p@.len() == n,
            n > 0,
            trim_start_matches(v@, p@) == trim_start_matches(cur@, p@),
        decreases cur@.len(),
    {
        let next = subchars(&cur, n, cur.len());
        proof {
            assert(cur@.subrange(n as int, cur@.len() as int) =~= cur@.skip(n as int));
        }
        cur = next;
    }
    cur
}

/// Remove every copy of `p` from the back of `v`.
pub fn trim_end_matches_str(v: &Vec<char>, p: &str) -> (r: Vec<char>)
    requires
        p@.len() > 0,
    ensures
        r@ == trim_end_matches(v@, p@),
{
    let n: usize = p.unicode_len();
    let mut cur = subchars(v, 0, v.len());
    proof {
        assert(v@.subrange(0, v@.len() as int) =~= v@);
    }
    while ends_with_str(&cur, p)
        invariant
            p@.len() == n,
            n > 0,
            trim_end_matches(v@, p@) == trim_end_matches(cur@, p@),
        decreases cur@.len(),
    {
        let next = subchars(&cur, 0, cur.len() - n);
        proof {
            assert(cur@.subrange(0, (cur@.len() - n) as int) =~= cur@.take(cur@.len() - n));
        }
        cur = next;
    }
    cur
}

/// `s` with every doubled single quote collapsed to one.
pub open spec fn collapse_quotes(s: Seq<char>) -> Seq<char>
    decreases s.len(),
{
    if s.len() >= 2 && s[0] == '\'' && s[1] == '\'' {
        seq!['\''] + collapse_quotes(s.skip(2))
    } else if s.len() > 0 {
        seq![s[0]] + collapse_quotes(s.skip(1))
    } else {
        Seq::empty()
    }
}

/// Collapse doubled single quotes in `v`.
pub fn collapse_quotes_in(v: &Vec<char>) -> (r: Vec<char>)
    ensures
        r@ == collapse_quotes(v@),
{
    let mut r: Vec<char> = Vec::new();
    let mut i: usize = 0;
    proof {
        assert(v@.skip(0) =~= v@);
        assert(r@ + collapse_quotes(v@) =~= collapse_quotes(v@));
    }
    while i < v.len()
        invariant
            i <= v@.len(),
            collapse_quotes(v@) == r@ + collapse_quotes(v@.skip(i as int)),
        decreases v.len() - i,
    {
        proof {
            lemma_collapse_step(v@, i as int);
        }
        if v[i] == '\'' && i + 1 < v.len() && v[i + 1] == '\'' {
            r.push('\'');
            proof {
                assert(v@.skip(i as int).skip(2) =~= v@.skip(i + 2));
            }
            i += 2;
        } else {
            r.push(v[i]);
            proof {
                assert(v@.skip(i as int).skip(1) =~= v@.skip(i + 1));
            }
            i += 1;
        }
    }
    proof {
        assert(v@.skip(v@.len() as int) =~= Seq::<char>::empty());
        assert(r@ + Seq::<char>::empty() =~= r@);
    }
    r
}

proof fn lemma_collapse_step(s: Seq<char>, i: int)
    requires
        0 <= i < s.len(),
    ensures
        s.skip(i).len() == s.len() - i,
        s.skip(i)[0] == s[i],
        i + 1 < s.len() ==> s.skip(i)[1] == s[i + 1],
{
}

/// `parts` split at every `sep`, keeping empty pieces.
pub open spec fn split_on(s: Seq<char>, sep: char) -> Seq<Seq<char>>
    decreases s.len(),
{
    if s.len() == 0 {
        seq![Seq::empty()]
    } else if s[0] == sep {
        seq![Seq::<char>::empty()] + split_on(s.drop_first(), sep)
    } else {
        let rest = split_on(s.drop_first(), sep);
        seq![seq![s[0]] + rest[0]] + rest.skip(1)
    }
}

proof fn lemma_split_on_len(s: Seq<char>, sep: char)
    ensures
        split_on(s, sep).len() >= 1,
    decreases s.len(),
{
    if s.len() > 0 {
        lemma_split_on_len(s.drop_first(), sep);
    }
}

proof fn lemma_split_on_step(s: Seq<char>, sep: char, i: int, cur: Seq<char>, done: Seq<Seq<char>>)
    requires
        0 <= i < s.len(),
        split_on(s, sep) == done + seq![cur + split_on(s.skip(i), sep)[0]] + split_on(
            s.skip(i),
            sep,
        ).skip(1),
    ensures
        s[i] == sep ==> split_on(s, sep) == (done + seq![cur]) + seq![
            Seq::<char>::empty() + split_on(s.skip(i + 1), sep)[0],
        ] + split_on(s.skip(i + 1), sep).skip(1),
        s[i] != sep ==> split_on(s, sep) == done + seq![
            cur.push(s[i]) + split_on(s.skip(i + 1), sep)[0],
        ] + split_on(s.skip(i + 1), sep).skip(1),
{
    let t = s.skip(i);
    assert(t.len() == s.len() - i);
    assert(t[0] == s[i]);
    assert(t.drop_first() =~= s.skip(i + 1));
    lemma_split_on_len(s.skip(i + 1), sep);
    if s[i] == sep {
        assert(split_on(t, sep) == seq![Seq::<char>::empty()] + split_on(s.skip(i + 1), sep));
        assert(split_on(t, sep)[0] =~= Seq::<char>::empty());
        assert(split_on(t, sep).skip(1) =~= split_on(s.skip(i + 1), sep));
        assert(cur + split_on(t, sep)[0] =~= cur);
        let rest = split_on(s.skip(i + 1), sep);
        assert(split_on(s.skip(i + 1), sep) =~= seq![rest[0]] + rest.skip(1));
        assert((done + seq![cur]) + seq![Seq::<char>::empty() + rest[0]] + rest.skip(1) =~= done
            + seq![cur] + seq![rest[0]] + rest.skip(1));
        assert(done + seq![cur] + seq![rest[0]] + rest.skip(1) =~= done + seq![cur + split_on(
            t,
            sep,
        )[0]] + split_on(t, sep).skip(1));
        assert(Seq::<char>::empty() + rest[0] =~= rest[0]);
    } else {
        let rest = split_on(s.skip(i + 1), sep);
        assert(split_on(t, sep) == seq![seq![t[0]] + rest[0]] + rest.skip(1));
        assert(split_on(t, sep)[0] == seq![t[0]] + rest[0]);
        assert(split_on(t, sep).skip(1) =~= rest.skip(1));
        assert(cur + (seq![t[0]] + rest[0]) =~= cur.push(s[i]) + rest[0]);
    }
}

/// Split `v` at every `sep`, keeping empty pieces.
pub fn split_on_char(v: &Vec<char>, sep: char) -> (r: Vec<Vec<char>>)
    ensures
        r@.map_values(|t: Vec<char>| t@) == split_on(v@, sep),
        r@.len() >= 1,
{
    let mut done: Vec<Vec<char>> = Vec::new();
    let mut cur: Vec<char> = Vec::new();
    let mut i: usize = 0;
    proof {
        assert(v@.skip(0) =~= v@);
        lemma_split_on_len(v@, sep);
    }
    while i < v.len()
        invariant
            i <= v@.len(),
            split_on(v@, sep) == done@.map_values(|t: Vec<char>| t@) + seq![
                cur@ + split_on(v@.skip(i as int), sep)[0],
            ] + split_on(v@.skip(i as int), sep).skip(1),
        decreases v.len() - i,
    {
        proof {
            lemma_split_on_step(v@, sep, i as int, cur@, done@.map_values(|t: Vec<char>| t@));
        }
        if v[i] == sep {
            let ghost old_done = done@;
            let ghost old_cur = cur@;
            done.push(cur);
            cur = Vec::new();
            proof {
                assert(done@.map_values(|t: Vec<char>| t@) =~= old_done.map_values(
                    |t: Vec<char>| t@,
                ) + seq![old_cur]);
                assert(cur@ =~= Seq::<char>::empty());
            }
        } else {
            cur.push(v[i]);
        }
        i += 1;
    }
    let ghost old_done = done@;
    done.push(cur);
    proof {
        let t = v@.skip(v@.len() as int);
        assert(t =~= Seq::<char>::empty());
        assert(split_on(t, sep) == seq![Seq::<char>::empty()]);
        assert(done@.map_values(|x: Vec<char>| x@) =~= old_done.map_values(|x: Vec<char>| x@)
            + seq![done@.last()@]);
        assert(split_on(v@, sep) =~= done@.map_values(|x: Vec<char>| x@));
    }
    done
}

/// True when `p` occurs in `s` starting at `i`.
pub open spec fn match_at(s: Seq<char>, p: Seq<char>, i: int) -> bool {
    0 <= i && i + p.len() <= s.len() && s.subrange(i, i + p.len()) == p
}

/// True when `p` occurs somewhere in `s`.
pub open spec fn has_sub(s: Seq<char>, p: Seq<char>) -> bool {
    exists|i: int| match_at(s, p, i)
}

/// Test whether `p` occurs in `v` starting at `i`.
pub fn match_at_pos(v: &Vec<char>, p: &str, i: usize) -> (r: bool)
    ensures
        r == match_at(v@, p@, i as int),
{
    let n: usize = p.unicode_len();
    if i > v.len() || n > v.len() - i {
        return false;
    }
    let mut k: usize = 0;
    while k < n
        invariant
            k <= n,
            n == p@.len(),
            i + n <= v@.len(),
            v@.len() <= usize::MAX,
            forall|j: int| 0 <= j < k ==> v@[i + j] == p@[j],
        decreases n - k,
    {
        if v[i + k] != p.get_char(k) {
            proof {
                assert(v@.subrange(i as int, i + p@.len())[k as int] != p@[k as int]);
            }
            return false;
        }
        k += 1;
    }
    proof {
        assert(v@.subrange(i as int, i + p@.len()) =~= p@);
    }
    true
}

/// Find the first position where `p` occurs in `v`.
pub fn find_sub(v: &Vec<char>, p: &str) -> (r: Option<usize>)
    requires
        p@.len() > 0,
    ensures
        match r {
            Some(i) => match_at(v@, p@, i as int) && (forall|j: int|
                0 <= j < i ==> !match_at(v@, p@, j)),
            None => !has_sub(v@, p@),
        },
{
    let n: usize = p.unicode_len();
    if n > v.len() {
        proof {
            assert(forall|j: int| !match_at(v@, p@, j));
        }
        return None;
    }
    let last: usize = v.len() - n;
    let mut i: usize = 0;
    while i <= last
        invariant
            n == p@.len(),
            1 <= n <= v@.len(),
            v@.len() <= usize::MAX,
            last == v@.len() - n,
            i <= last + 1,
            forall|j: int| 0 <= j < i ==> !match_at(v@, p@, j),
        decreases last + 1 - i,
    {
        if match_at_pos(v, p, i) {
            return Some(i);
        }
        i += 1;
    }
    proof {
        assert(forall|j: int| match_at(v@, p@, j) ==> 0 <= j <= last);
        assert(!has_sub(v@, p@));
    }
    None
}

/// Test whether `p` occurs somewhere in `v`.
pub fn contains_sub(v: &Vec<char>, p: &str) -> (r: bool)
    requires
        p@.len() > 0,
    ensures
        r == has_sub(v@, p@),
{
    match find_sub(v, p) {
        Some(i) => {
            proof {
                assert(match_at(v@, p@, i as int));
            }
            true
        },
        None => false,
    }
}

/// The first match position of `p` in `s` at or after `i`.
pub open spec fn first_match_from(s: Seq<char>, p: Seq<char>, i: int) -> Option<int>
    decreases s.len() + 1 - i,
{
    if i < 0 || i + p.len() > s.len() {
        None
    } else if match_at(s, p, i) {
        Some(i)
    } else {
        first_match_from(s, p, i + 1)
    }
}

/// The first match position of `p` in `s`.
pub open spec fn first_match(s: Seq<char>, p: Seq<char>) -> Option<int> {
    first_match_from(s, p, 0)
}

proof fn lemma_first_match_from_found(s: Seq<char>, p: Seq<char>, i: int, k: int)
    requires
        0 <= i <= k,
        match_at(s, p, k),
        forall|j: int| i <= j < k ==> !match_at(s, p, j),
    ensures
        first_match_from(s, p, i) == Some(k),
    decreases k - i,
{
    if i < k {
        lemma_first_match_from_found(s, p, i + 1, k);
    }
}

/// A position that matches with none before it is the first match.
pub proof fn lemma_first_match_found(s: Seq<char>, p: Seq<char>, k: int)
    requires
        0 <= k,
        match_at(s, p, k),
        forall|j: int| 0 <= j < k ==> !match_at(s, p, j),
    ensures
        first_match(s, p) == Some(k),
{
    lemma_first_match_from_found(s, p, 0, k);
}

proof fn lemma_first_match_from_absent(s: Seq<char>, p: Seq<char>, i: int)
    requires
        forall|j: int| !match_at(s, p, j),
    ensures
        first_match_from(s, p, i) == None::<int>,
    decreases s.len() + 1 - i,
{
    if !(i < 0 || i + p.len() > s.len()) {
        lemma_first_match_from_absent(s, p, i + 1);
    }
}

/// Without any match there is no first match.
pub proof fn lemma_first_match_absent(s: Seq<char>, p: Seq<char>)
    requires
        !has_sub(s, p),
    ensures
        first_match(s, p) == None::<int>,
{
    assert(forall|j: int| !match_at(s, p, j));
    lemma_first_match_from_absent(s, p, 0);
}

/// A one-character pattern matches exactly where that character stands.
pub proof fn lemma_char_match(s: Seq<char>, c: char, j: int)
    ensures
        match_at(s, seq![c], j) <==> (0 <= j < s.len() && s[j] == c),
{
    if 0 <= j && j + 1 <= s.len() {
        if s[j] == c {
            assert(s.subrange(j, j + 1) =~= seq![c]);
        } else {
            assert(s.subrange(j, j + 1)[0] == s[j]);
        }
    }
}

/// What precedes the first match of `p` (all of `s` when there is none).
pub open spec fn split_head(s: Seq<char>, p: Seq<char>) -> Seq<char> {
    match first_match(s, p) {
        Some(i) => s.take(i),
        None => s,
    }
}

/// What stands between the first match of `p` and the next one (or the
/// end); empty when `p` does not occur at all.
pub open spec fn split_next(s: Seq<char>, p: Seq<char>) -> Seq<char> {
    match first_match(s, p) {
        Some(i) => split_head(s.skip(i + p.len()), p),
        None => Seq::empty(),
    }
}

proof fn lemma_digits_value_nonneg(s: Seq<char>)
    requires
        all_digits(s),
    ensures
        digits_value(s) >= 0,
    decreases s.len(),
{
    if s.len() > 0 {
        assert(is_digit(s.last()));
        assert(all_digits(s.drop_last())) by {
            assert(forall|i: int|
                0 <= i < s.drop_last().len() ==> #[trigger] s.drop_last()[i] == s[i]);
        }
        lemma_digits_value_nonneg(s.drop_last());
    }
}

proof fn lemma_digits_value_prefix(s: Seq<char>, k: int)
    requires
        all_digits(s),
        0 <= k <= s.len(),
    ensures
        digits_value(s) >= digits_value(s.take(k)),
        digits_value(s.take(k)) >= 0,
    decreases s.len() - k,
{
    assert(all_digits(s.take(k))) by {
        assert(forall|i: int| 0 <= i < k ==> #[trigger] s.take(k)[i] == s[i]);
    }
    lemma_digits_value_nonneg(s.take(k));
    if k < s.len() {
        lemma_digits_value_prefix(s, k + 1);
        assert(s.take(k + 1).drop_last() =~= s.take(k));
        assert(digits_value(s.take(k + 1)) == digits_value(s.take(k)) * 10 + digit_val(
            s.take(k + 1).last(),
        ));
        assert(is_digit(s[k]));
        assert(digits_value(s.take(k)) * 10 >= digits_value(s.take(k))) by (nonlinear_arith)
            requires
                digits_value(s.take(k)) >= 0,
        ;
    } else {
        assert(s.take(k) =~= s);
    }
}

/// `s` without a single leading `+` sign.
pub open spec fn unsigned_body(s: Seq<char>) -> Seq<char> {
    if s.len() > 0 && s[0] == '+' {
        s.drop_first()
    } else {
        s
    }
}

/// `s` without a single leading `+` or `-` sign.
pub open spec fn signed_body(s: Seq<char>) -> Seq<char> {
    if s.len() > 0 && (s[0] == '-' || s[0] == '+') {
        s.drop_first()
    } else {
        s
    }
}

/// The digits of `s` (after an optional leading `+`) as a number, when they
/// form one that fits in `u32`.
pub open spec fn u32_of_chars(s: Seq<char>) -> Option<u32> {
    if unsigned_body(s).len() > 0 && all_digits(unsigned_body(s)) && digits_value(unsigned_body(s))
        <= u32::MAX {
        Some(digits_value(unsigned_body(s)) as u32)
    } else {
        None
    }
}

/// Parse an unsigned decimal number as `u32`, as `str::parse` would.
#[verifier::loop_isolation(false)]
pub fn parse_u32(v: &Vec<char>) -> (r: Option<u32>)
    ensures
        r == u32_of_chars(v@),
{
    let start: usize = if v.len() > 0 && v[0] == '+' {
        1
    } else {
        0
    };
    let ghost body = unsigned_body(v@);
    proof {
        assert(body =~= v@.skip(start as int));
    }
    if v.len() == start {
        return None;
    }
    let mut acc: u32 = 0;
    let mut i: usize = start;
    proof {
        assert(body.take(0) =~= Seq::<char>::empty());
    }
    while i < v.len()
        invariant
            start <= i <= v@.len(),
            start <= 1,
            v@.len() > start,
            body == v@.skip(start as int),
            all_digits(body.take(i - start)),
            acc == digits_value(body.take(i - start)),
        decreases v.len() - i,
    {
        let c = v[i];
        if !(c >= '0' && c <= '9') {
            proof {
                assert(body[i - start] == v@[i as int]);
                assert(!all_digits(body));
            }
            return None;
        }
        let d: u32 = (c as u32) - 48;
        proof {
            assert(body.take(i - start + 1).drop_last() =~= body.take(i - start));
            assert(body.take(i - start + 1).last() == v@[i as int]);
            assert(all_digits(body.take(i - start + 1)));
        }
        if acc > (u32::MAX - d) / 10 {
            proof {
                assert(acc * 10 + d > u32::MAX) by (nonlinear_arith)
                    requires
                        acc > (u32::MAX - d) / 10,
                        d <= 9,
                ;
                if all_digits(body) {
                    lemma_digits_value_prefix(body, i - start + 1);
                    assert(digits_value(body) > u32::MAX);
                }
            }
            return None;
        }
        proof {
            assert(acc * 10 + d <= u32::MAX) by (nonlinear_arith)
                requires
                    acc <= (u32::MAX - d) / 10,
                    d <= 9,
            ;
        }
        acc = acc * 10 + d;
        i += 1;
    }
    proof {
        assert(body.take(v@.len() - start) =~= body);
    }
    Some(acc)
}

/// The signed decimal value written in `s`: an optional sign and digits.
pub open spec fn int_literal_val(s: Seq<char>) -> Option<int> {
    if signed_body(s).len() > 0 && all_digits(signed_body(s)) {
        if s.len() > 0 && s[0] == '-' {
            Some(-digits_value(signed_body(s)))
        } else {
            Some(digits_value(signed_body(s)))
        }
    } else {
        None
    }
}

/// The value of `s` as `i32`, when it is a signed decimal number in range.
pub open spec fn i32_of_chars(s: Seq<char>) -> Option<i32> {
    match int_literal_val(s) {
        Some(n) => if i32::MIN <= n <= i32::MAX {
            Some(n as i32)
        } else {
            None
        },
        None => None,
    }
}

/// Parse a signed decimal number as `i32`, as `str::parse` would.
#[verifier::loop_isolation(false)]
pub fn parse_i32(v: &Vec<char>) -> (r: Option<i32>)
    ensures
        r == i32_of_chars(v@),
{
    let neg: bool = v.len() > 0 && v[0] == '-';
    let start: usize = if v.len() > 0 && (v[0] == '-' || v[0] == '+') {
        1
    } else {
        0
    };
    let ghost body = signed_body(v@);
    proof {
        assert(body =~= v@.skip(start as int));
    }
    if v.len() == start {
        return None;
    }
    let bound: u64 = 2147483648;
    let mut acc: u64 = 0;
    let mut i: usize = start;
    proof {
        assert(body.take(0) =~= Seq::<char>::empty());
    }
    while i < v.len()
        invariant
            start <= i <= v@.len(),
            start <= 1,
            v@.len() > start,
            body == v@.skip(start as int),
            all_digits(body.take(i - start)),
            acc == digits_value(body.take(i - start)),
            acc <= 2147483648,
        decreases v.len() - i,
    {
        let c = v[i];
        if !(c >= '0' && c <= '9') {
            proof {
                assert(body[i - start] == v@[i as int]);
                assert(!all_digits(body));
            }
            return None;
        }
        let d: u64 = (c as u64) - 48;
        proof {
            assert(body.take(i - start + 1).drop_last() =~= body.take(i - start));
            assert(body.take(i - start + 1).last() == v@[i as int]);
            assert(all_digits(body.take(i - start + 1)));
        }
        let next: u64 = acc * 10 + d;
        if next > bound {
            proof {
                if all_digits(body) {
                    lemma_digits_value_prefix(body, i - start + 1);
                    assert(digits_value(body) > 2147483648);
                }
            }
            return None;
        }
        acc = next;
        i += 1;
    }
    proof {
        assert(body.take(v@.len() - start) =~= body);
    }
    if neg {
        proof {
            lemma_digits_value_nonneg(body);
        }
        Some((0 - (acc as i64)) as i32)
    } else {
        if acc > 2147483647 {
            return None;
        }
        Some(acc as i32)
    }
}

/// Render a nonnegative number below `u128::MAX` as decimal digits.
pub fn nat_chars(n: u128) -> (r: Vec<char>)
    ensures
        r@ == dec_digits(n as int),
{
    let mut r: Vec<char> = Vec::new();
    let mut m: u128 = n;
    proof {
        if n > 0 {
            assert(dec_digits(n as int) + Seq::<char>::empty() =~= dec_digits(n as int));
        }
    }
    loop
        invariant_except_break
            m == 0 ==> r@.len() == 0 && n == 0,
            m > 0 ==> dec_digits(n as int) == dec_digits(m as int) + r@,
        ensures
            r@ == dec_digits(n as int),
        decreases m,
    {
        let d: u8 = (m % 10) as u8;
        let c: char = (d + 48) as char;
        let ghost old_r = r@;
        let ghost old_m = m;
        r.insert(0, c);
        m = m / 10;
        proof {
            assert(r@ =~= seq![c] + old_r);
            assert(c == digit_char(old_m as int % 10));
            if old_m < 10 {
                assert(m == 0);
                assert(old_m as int % 10 == old_m as int);
                assert(dec_digits(old_m as int) == seq![digit_char(old_m as int)]);
                if old_m > 0 {
                    assert(dec_digits(n as int) == dec_digits(old_m as int) + old_r);
                    assert(dec_digits(old_m as int) + old_r =~= seq![c] + old_r);
                    assert(dec_digits(n as int) == r@);
                } else {
                    assert(old_r.len() == 0 && n == 0);
                    assert(dec_digits(0) == seq![digit_char(0)]);
                    assert(r@ =~= dec_digits(n as int));
                }
            } else {
                assert(m == old_m / 10 > 0);
                assert(dec_digits(old_m as int) == dec_digits(old_m as int / 10).push(
                    digit_char(old_m as int % 10),
                ));
                assert(dec_digits(n as int) == dec_digits(old_m as int) + old_r);
                assert(dec_digits(old_m as int) + old_r =~= dec_digits(m as int) + (seq![c]
                    + old_r));
                assert(dec_digits(n as int) == dec_digits(m as int) + r@);
            }
        }
        if m == 0 {
            break;
        }
    }
    r
}

/// Render an `i128` above `i128::MIN` in decimal.
pub fn int_to_chars(n: i128) -> (r: Vec<char>)
    requires
        n > i128::MIN,
    ensures
        r@ == int_chars(n as int),
{
    if n < 0 {
        let mag: u128 = (-n) as u128;
        let digits = nat_chars(mag);
        let mut r: Vec<char> = Vec::new();
        r.push('-');
        append_chars(&mut r, &digits);
        proof {
            assert(r@ =~= seq!['-'] + dec_digits(-(n as int)));
        }
        r
    } else {
        nat_chars(n as u128)
    }
}

/// Every rendered digit string consists of digits and reads back as the
/// same number.
pub proof fn lemma_dec_digits_value(n: int)
    requires
        n >= 0,
    ensures
        all_digits(dec_digits(n)),
        digits_value(dec_digits(n)) == n,
        dec_digits(n).len() >= 1,
        dec_digits(n)[0] != '-',
        dec_digits(n)[0] != '+',
        dec_digits(n)[0] != '\'',
        dec_digits(n)[0] != '@',
    decreases n,
{
    if n < 10 {
        assert(dec_digits(n) == seq![digit_char(n)]);
        assert(is_digit(digit_char(n)));
        assert(digit_val(digit_char(n)) == n);
        assert(seq![digit_char(n)].drop_last() =~= Seq::<char>::empty());
        assert(digits_value(Seq::<char>::empty()) == 0);
        assert(digits_value(seq![digit_char(n)]) == digit_val(digit_char(n)));
    } else {
        lemma_dec_digits_value(n / 10);
        let d = dec_digits(n);
        assert(d == dec_digits(n / 10).push(digit_char(n % 10)));
        assert(d.drop_last() =~= dec_digits(n / 10));
        assert(d.last() == digit_char(n % 10));
        assert(is_digit(digit_char(n % 10)));
        assert(digit_val(digit_char(n % 10)) == n % 10);
        assert(digits_value(d) == digits_value(dec_digits(n / 10)) * 10 + digit_val(
            digit_char(n % 10),
        ));
        assert(digits_value(d) == (n / 10) * 10 + n % 10);
        assert(forall|i: int| 0 <= i < d.len() ==> is_digit(#[trigger] d[i])) by {
            assert(forall|i: int| 0 <= i < d.len() - 1 ==> d[i] == dec_digits(n / 10)[i]);
        }
    }
}

/// A rendered integer parses back to itself.
pub proof fn lemma_int_chars_roundtrip(n: i32)
    ensures
        i32_of_chars(int_chars(n as int)) == Some(n),
{
    if n >= 0 {
        lemma_dec_digits_value(n as int);
        let s = int_chars(n as int);
        assert(s == dec_digits(n as int));
        assert(signed_body(s) == s);
        assert(i32_of_chars(s) == Some(n));
    } else {
        lemma_dec_digits_value(-(n as int));
        let s = int_chars(n as int);
        assert(s == seq!['-'] + dec_digits(-(n as int)));
        assert(s[0] == '-');
        assert(signed_body(s) =~= dec_digits(-(n as int)));
        assert(int_literal_val(s) == Some(-digits_value(dec_digits(-(n as int)))));
        assert(i32_of_chars(s) == Some(n));
    }
}

/// `s` with ASCII capital letters lowered.
pub open spec fn ascii_lower(s: Seq<char>) -> Seq<char> {
    s.map_values(|c: char| lower_char(c))
}

/// An ASCII capital letter lowered; any other character unchanged.
pub open spec fn lower_char(c: char) -> char {
    if 'A' <= c && c <= 'Z' {
        ((c as u8) + 32) as char
    } else {
        c
    }
}

/// Lower the ASCII capital letters of `v`.
pub fn lower_ascii(v: &Vec<char>) -> (r: Vec<char>)
    ensures
        r@ == ascii_lower(v@),
{
    let mut r: Vec<char> = Vec::new();
    let mut i: usize = 0;
    while i < v.len()
        invariant
            i <= v@.len(),
            r@ == v@.take(i as int).map_values(|c: char| lower_char(c)),
        decreases v.len() - i,
    {
        let c = v[i];
        if c >= 'A' && c <= 'Z' {
            let b: u8 = (c as u8) + 32;
            r.push(b as char);
        } else {
            r.push(c);
        }
        proof {
            assert(r@ =~= v@.take(i + 1 as int).map_values(|c: char| lower_char(c)));
        }
        i += 1;
    }
    proof {
        assert(v@.take(v@.len() as int) =~= v@);
    }
    r
}

} // verus!
