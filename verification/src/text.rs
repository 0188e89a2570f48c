//! Text primitives over sequences of characters.
//!
//! Every parser in this crate reads the output of a command line tool. The
//! functions here give those parsers their vocabulary: where a character or a
//! pattern first occurs, what a line or a field is, what trimming removes.
//! Each one has a specification over `Seq<char>` and an executable twin on
//! `&[char]` that is proved to compute it.
use vstd::prelude::*;
use vstd::slice::slice_subrange;
use vstd::string::StringSliceAdditionalSpecFns;
use vstd::utf8::{encode_utf8, encode_utf8_decode_utf8};

verus! {

/// `String::push` appends one character to the end of the string and leaves the
/// characters before it as they were.
pub assume_specification[ String::push ](s: &mut String, ch: char)
    ensures
        final(s)@ == old(s)@.push(ch),
;

/// The characters of `s`, in order.
pub fn chars_of(s: &str) -> (v: Vec<char>)
    ensures
        v@ == s@,
{
    let mut v: Vec<char> = Vec::new();
    for c in it: s.chars()
        invariant
            v@ == it.seq().take(it.index()),
            it.seq() == s@,
    {
        v.push(c);
    }
    v
}

/// The string made of the characters of `s`, in order.
pub fn string_of(s: &[char]) -> (r: String)
    ensures
        r@ == s@,
{
    let mut r = String::new();
    let mut i: usize = 0;
    while i < s.len()
        invariant
            i <= s@.len(),
            r@ == s@.take(i as int),
        decreases s@.len() - i,
    {
        r.push(s[i]);
        i += 1;
    }
    r
}

/// Index of the first occurrence of `c` in `s`, or `s.len()` where `c` does
/// not occur.
pub open spec fn position(s: Seq<char>, c: char) -> int
    decreases s.len(),
{
    if s.len() == 0 {
        0
    } else if s[0] == c {
        0
    } else {
        1 + position(s.drop_first(), c)
    }
}

/// `position` is in range, nothing before it is `c`, and it points at `c`
/// unless it is the length.
pub proof fn lemma_position(s: Seq<char>, c: char)
    ensures
        0 <= position(s, c) <= s.len(),
        forall|j: int| 0 <= j < position(s, c) ==> s[j] != c,
        position(s, c) < s.len() ==> s[position(s, c)] == c,
    decreases s.len(),
{
    if s.len() > 0 && s[0] != c {
        let t = s.drop_first();
        lemma_position(t, c);
        assert forall|j: int| 0 <= j < position(s, c) implies s[j] != c by {
            if j > 0 {
                assert(s[j] == t[j - 1]);
            }
        }
    }
}

/// The index that `lemma_position` describes is the only one.
pub proof fn lemma_position_is(s: Seq<char>, c: char, p: int)
    requires
        0 <= p <= s.len(),
        forall|j: int| 0 <= j < p ==> s[j] != c,
        p < s.len() ==> s[p] == c,
    ensures
        position(s, c) == p,
{
    lemma_position(s, c);
    let q = position(s, c);
    if q < p {
        assert(s[q] != c);
    } else if p < q {
        assert(s[p] != c);
    }
}

/// Computes `position`.
pub fn find_char(s: &[char], c: char) -> (p: usize)
    ensures
        p == position(s@, c),
{
    let mut i: usize = 0;
    while i < s.len() && s[i] != c
        invariant
            i <= s@.len(),
            forall|j: int| 0 <= j < i ==> s@[j] != c,
        decreases s@.len() - i,
    {
        i += 1;
    }
    proof {
        lemma_position_is(s@, c, i as int);
    }
    i
}

/// Whether `pat` stands in `s` at index `i`.
pub open spec fn occurs_at(s: Seq<char>, pat: Seq<char>, i: int) -> bool {
    0 <= i && i + pat.len() <= s.len() && s.subrange(i, i + pat.len()) == pat
}

/// Whether `pat` stands somewhere in `s`.
pub open spec fn contains(s: Seq<char>, pat: Seq<char>) -> bool {
    exists|i: int| occurs_at(s, pat, i)
}

/// Whether `i` is the first index at which `pat` stands in `s`.
pub open spec fn is_first_occurrence(s: Seq<char>, pat: Seq<char>, i: int) -> bool {
    occurs_at(s, pat, i) && forall|j: int| 0 <= j < i ==> !occurs_at(s, pat, j)
}

/// The first index at which `pat` stands in `s`, if it stands anywhere.
pub open spec fn first_occurrence(s: Seq<char>, pat: Seq<char>) -> Option<int> {
    if contains(s, pat) {
        Some(choose|i: int| is_first_occurrence(s, pat, i))
    } else {
        None
    }
}

/// A first occurrence is the value of `first_occurrence`.
pub proof fn lemma_first_occurrence_is(s: Seq<char>, pat: Seq<char>, i: int)
    requires
        is_first_occurrence(s, pat, i),
    ensures
        first_occurrence(s, pat) == Some(i),
{
    assert(occurs_at(s, pat, i));
    let k = choose|k: int| is_first_occurrence(s, pat, k);
    if k < i {
        assert(!occurs_at(s, pat, k));
    } else if i < k {
        assert(!occurs_at(s, pat, i));
    }
}

/// Where `pat` stands nowhere, `first_occurrence` is `None`.
pub proof fn lemma_no_occurrence(s: Seq<char>, pat: Seq<char>)
    requires
        forall|j: int| 0 <= j <= s.len() ==> !occurs_at(s, pat, j),
    ensures
        first_occurrence(s, pat) is None,
        !contains(s, pat),
{
    assert forall|j: int| !occurs_at(s, pat, j) by {
        if 0 <= j <= s.len() {
        }
    }
}

/// Whether `pat` stands in `s` at index `i`.
pub fn matches_at(s: &[char], pat: &[char], i: usize) -> (b: bool)
    ensures
        b == occurs_at(s@, pat@, i as int),
{
    if i > s.len() || pat.len() > s.len() - i {
        return false;
    }
    let mut k: usize = 0;
    while k < pat.len()
        invariant
            k <= pat@.len(),
            i + pat@.len() <= s@.len() <= usize::MAX,
            forall|j: int| 0 <= j < k ==> s@[i + j] == pat@[j],
        decreases pat@.len() - k,
    {
        if s[i + k] != pat[k] {
            proof {
                let w = s@.subrange(i as int, i + pat@.len());
                assert(w[k as int] == s@[i + k]);
            }
            return false;
        }
        k += 1;
    }
    proof {
        assert(s@.subrange(i as int, i + pat@.len()) =~= pat@);
    }
    true
}

/// Whether `s` begins with `pat`.
pub fn starts_with(s: &[char], pat: &[char]) -> (b: bool)
    ensures
        b == pat@.is_prefix_of(s@),
{
    let b = matches_at(s, pat, 0);
    proof {
        if pat@.len() <= s@.len() {
            assert(s@.subrange(0, pat@.len() as int) == pat@ <==> pat@.is_prefix_of(s@)) by {
                if pat@.is_prefix_of(s@) {
                    assert(s@.subrange(0, pat@.len() as int) =~= pat@);
                }
                if s@.subrange(0, pat@.len() as int) == pat@ {
                    assert(pat@.is_prefix_of(s@));
                }
            }
        }
    }
    b
}

/// Computes `first_occurrence`.
pub fn find(s: &[char], pat: &[char]) -> (r: Option<usize>)
    ensures
        r.is_some() == contains(s@, pat@),
        match r {
            Some(i) => first_occurrence(s@, pat@) == Some(i as int) && is_first_occurrence(
                s@,
                pat@,
                i as int,
            ),
            None => first_occurrence(s@, pat@) is None,
        },
{
    let mut i: usize = 0;
    while i < s.len()
        invariant
            i <= s@.len(),
            forall|j: int| 0 <= j < i ==> !occurs_at(s@, pat@, j),
        decreases s@.len() - i,
    {
        if matches_at(s, pat, i) {
            proof {
                lemma_first_occurrence_is(s@, pat@, i as int);
            }
            return Some(i);
        }
        i += 1;
    }
    if matches_at(s, pat, i) {
        proof {
            lemma_first_occurrence_is(s@, pat@, i as int);
        }
        return Some(i);
    }
    proof {
        lemma_no_occurrence(s@, pat@);
    }
    None
}

/// Whether `c` is white space: the characters that carry the Unicode property
/// `White_Space`.
pub open spec fn is_whitespace(c: char) -> bool {
    let u = c as u32;
    ||| 0x09 <= u <= 0x0d
    ||| u == 0x20
    ||| u == 0x85
    ||| u == 0xa0
    ||| u == 0x1680
    ||| 0x2000 <= u <= 0x200a
    ||| u == 0x2028
    ||| u == 0x2029
    ||| u == 0x202f
    ||| u == 0x205f
    ||| u == 0x3000
}

/// Computes `is_whitespace`.
pub fn is_whitespace_char(c: char) -> (b: bool)
    ensures
        b == is_whitespace(c),
{
    let u: u32 = c as u32;
    (0x09 <= u && u <= 0x0d) || u == 0x20 || u == 0x85 || u == 0xa0 || u == 0x1680 || (0x2000
        <= u && u <= 0x200a) || u == 0x2028 || u == 0x2029 || u == 0x202f || u == 0x205f || u
        == 0x3000
}

/// `s` without the white space at its start.
pub open spec fn trimmed_start(s: Seq<char>) -> Seq<char>
    decreases s.len(),
{
    if s.len() > 0 && is_whitespace(s[0]) {
        trimmed_start(s.drop_first())
    } else {
        s
    }
}

/// `s` without the white space at its end.
pub open spec fn trimmed_end(s: Seq<char>) -> Seq<char>
    decreases s.len(),
{
    if s.len() > 0 && is_whitespace(s.last()) {
        trimmed_end(s.drop_last())
    } else {
        s
    }
}

/// `s` without the white space at its start and at its end.
pub open spec fn trimmed(s: Seq<char>) -> Seq<char> {
    trimmed_end(trimmed_start(s))
}

/// Computes `trimmed`.
pub fn trim(s: &[char]) -> (r: &[char])
    ensures
        r@ == trimmed(s@),
{
    let mut a: usize = 0;
    proof {
        assert(s@.skip(0) =~= s@);
    }
    while a < s.len() && is_whitespace_char(s[a])
        invariant
            a <= s@.len(),
            trimmed_start(s@) == trimmed_start(s@.skip(a as int)),
        decreases s@.len() - a,
    {
        proof {
            assert(s@.skip(a as int).drop_first() =~= s@.skip(a + 1));
        }
        a += 1;
    }
    let mut b: usize = s.len();
    proof {
        assert(s@.skip(a as int) =~= s@.subrange(a as int, b as int));
    }
    while b > a && is_whitespace_char(s[b - 1])
        invariant
            a <= b <= s@.len(),
            trimmed(s@) == trimmed_end(s@.subrange(a as int, b as int)),
        decreases b,
    {
        proof {
            assert(s@.subrange(a as int, b as int).drop_last() =~= s@.subrange(
                a as int,
                b - 1,
            ));
        }
        b -= 1;
    }
    slice_subrange(s, a, b)
}

/// `s` without one carriage return at its end.
pub open spec fn without_cr(s: Seq<char>) -> Seq<char> {
    if s.len() > 0 && s.last() == '\r' {
        s.drop_last()
    } else {
        s
    }
}

/// The first line of `s`: what stands before the first line feed, without a
/// carriage return that closes it; all of `s` where it holds no line feed.
pub open spec fn first_line(s: Seq<char>) -> Seq<char> {
    let p = position(s, '\n');
    if 0 <= p < s.len() {
        without_cr(s.take(p))
    } else {
        s
    }
}

/// What follows the first line feed of `s`; nothing where it holds none.
pub open spec fn after_first_line(s: Seq<char>) -> Seq<char> {
    let p = position(s, '\n');
    if 0 <= p < s.len() {
        s.skip(p + 1)
    } else {
        Seq::empty()
    }
}

/// The lines of `s` that hold at least one character, in order.
pub open spec fn nonempty_lines(s: Seq<char>) -> Seq<Seq<char>>
    decreases s.len(),
{
    if s.len() == 0 {
        Seq::empty()
    } else {
        let rest = nonempty_lines(after_first_line(s));
        if first_line(s).len() > 0 {
            seq![first_line(s)] + rest
        } else {
            rest
        }
    }
}

/// Computes `nonempty_lines`.
pub fn split_nonempty_lines(s: &[char]) -> (out: Vec<String>)
    ensures
        out.deep_view() == nonempty_lines(s@),
{
    let mut out: Vec<String> = Vec::new();
    let mut start: usize = 0;
    proof {
        assert(s@.skip(0) =~= s@);
        assert(out.deep_view() =~= Seq::<Seq<char>>::empty());
    }
    while start < s.len()
        invariant
            start <= s@.len(),
            nonempty_lines(s@) == out.deep_view() + nonempty_lines(s@.skip(start as int)),
        decreases s@.len() - start,
    {
        let rest = slice_subrange(s, start, s.len());
        let p = find_char(rest, '\n');
        proof {
            lemma_position(rest@, '\n');
            assert(rest@ =~= s@.skip(start as int));
        }
        let mut e: usize = p;
        if p < rest.len() && p > 0 && rest[p - 1] == '\r' {
            e = p - 1;
        }
        let line = slice_subrange(rest, 0, e);
        proof {
            if p < rest@.len() {
                assert(rest@.take(p as int) =~= rest@.subrange(0, p as int));
                if p > 0 {
                    assert(rest@.take(p as int).drop_last() =~= rest@.subrange(0, p - 1));
                }
                assert(rest@.skip(p + 1) =~= s@.skip(start + p + 1));
            } else {
                assert(rest@.subrange(0, p as int) =~= rest@);
                assert(s@.skip(s@.len() as int) =~= Seq::<char>::empty());
            }
            assert(line@ == first_line(rest@));
        }
        let ghost before = out.deep_view();
        if e > 0 {
            let text = string_of(line);
            out.push(text);
            proof {
                assert(out.deep_view() =~= before + seq![line@]);
            }
        }
        if p < rest.len() {
            start = start + p + 1;
        } else {
            start = s.len();
        }
        proof {
            assert(s@.skip(start as int) == after_first_line(rest@));
            let tail = nonempty_lines(after_first_line(rest@));
            if e > 0 {
                assert((before + seq![line@]) + tail =~= before + (seq![line@] + tail));
            }
        }
    }
    proof {
        assert(s@.skip(start as int).len() == 0);
    }
    out
}

/// Field number `n` (from 0) of `s`, where `sep` parts the fields; `None`
/// where `s` has fewer than `n + 1` fields.
pub open spec fn field(s: Seq<char>, sep: char, n: nat) -> Option<Seq<char>>
    decreases n,
{
    let p = position(s, sep);
    if n == 0 {
        Some(s.take(p))
    } else if 0 <= p < s.len() {
        field(s.skip(p + 1), sep, (n - 1) as nat)
    } else {
        None
    }
}

/// Computes `field`.
pub fn nth_field(s: &[char], sep: char, n: usize) -> (r: Option<&[char]>)
    ensures
        match r {
            Some(f) => field(s@, sep, n as nat) == Some(f@),
            None => field(s@, sep, n as nat) is None,
        },
{
    let mut start: usize = 0;
    let mut k: usize = n;
    proof {
        assert(s@.skip(0) =~= s@);
    }
    loop
        invariant
            start <= s@.len(),
            k <= n,
            field(s@, sep, n as nat) == field(s@.skip(start as int), sep, k as nat),
        decreases k,
    {
        let rest = slice_subrange(s, start, s.len());
        let p = find_char(rest, sep);
        proof {
            lemma_position(rest@, sep);
            assert(rest@ =~= s@.skip(start as int));
        }
        if k == 0 {
            let f = slice_subrange(rest, 0, p);
            proof {
                assert(f@ =~= rest@.take(p as int));
            }
            return Some(f);
        }
        if p >= rest.len() {
            return None;
        }
        proof {
            assert(rest@.skip(p + 1) =~= s@.skip(start + p + 1));
        }
        start = start + p + 1;
        k -= 1;
    }
}

/// Whether `a` and `b` hold the same characters.
pub fn same_chars(a: &[char], b: &[char]) -> (r: bool)
    ensures
        r == (a@ == b@),
{
    if a.len() != b.len() {
        return false;
    }
    let r = matches_at(a, b, 0);
    proof {
        assert(a@.subrange(0, b@.len() as int) =~= a@);
    }
    r
}

/// Whether `a` and `b` are the same text. Two texts are the same where their
/// encodings are.
pub fn same_text(a: &str, b: &str) -> (r: bool)
    ensures
        r == (a@ == b@),
{
    let x = a.as_bytes();
    let y = b.as_bytes();
    proof {
        encode_utf8_decode_utf8(a@);
        encode_utf8_decode_utf8(b@);
    }
    if x.len() != y.len() {
        return false;
    }
    let mut i: usize = 0;
    while i < x.len()
        invariant
            i <= x@.len(),
            x@.len() == y@.len(),
            x@ == encode_utf8(a@),
            y@ == encode_utf8(b@),
            forall|j: int| 0 <= j < i ==> x@[j] == y@[j],
        decreases x@.len() - i,
    {
        if x[i] != y[i] {
            return false;
        }
        i += 1;
    }
    proof {
        assert(x@ =~= y@);
    }
    true
}

/// `s` without the slashes at its start.
pub open spec fn without_leading_slashes(s: Seq<char>) -> Seq<char>
    decreases s.len(),
{
    if s.len() > 0 && s[0] == '/' {
        without_leading_slashes(s.drop_first())
    } else {
        s
    }
}

/// What `without_leading_slashes` leaves is empty or begins with another
/// character than a slash, and it is the end of `s`.
pub proof fn lemma_without_leading_slashes(s: Seq<char>)
    ensures
        without_leading_slashes(s).len() > 0 ==> without_leading_slashes(s)[0] != '/',
        without_leading_slashes(s).len() <= s.len(),
        without_leading_slashes(s) == s.skip(s.len() - without_leading_slashes(s).len()),
    decreases s.len(),
{
    if s.len() > 0 && s[0] == '/' {
        let t = s.drop_first();
        lemma_without_leading_slashes(t);
        assert(t.skip(t.len() - without_leading_slashes(t).len()) =~= s.skip(
            s.len() - without_leading_slashes(t).len(),
        ));
    } else {
        assert(s.skip(0) =~= s);
    }
}

/// Computes `without_leading_slashes`.
pub fn strip_leading_slashes(s: &[char]) -> (r: &[char])
    ensures
        r@ == without_leading_slashes(s@),
{
    let mut a: usize = 0;
    proof {
        assert(s@.skip(0) =~= s@);
    }
    while a < s.len() && s[a] == '/'
        invariant
            a <= s@.len(),
            without_leading_slashes(s@) == without_leading_slashes(s@.skip(a as int)),
        decreases s@.len() - a,
    {
        proof {
            assert(s@.skip(a as int).drop_first() =~= s@.skip(a + 1));
        }
        a += 1;
    }
    proof {
        assert(s@.skip(a as int) =~= s@.subrange(a as int, s@.len() as int));
    }
    slice_subrange(s, a, s.len())
}

} // verus!
