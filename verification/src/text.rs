//! Character-level text utilities with their specifications.

use vstd::prelude::*;

verus! {

/// The characters of a string slice, in order.
pub fn chars_of(s: &str) -> (res: Vec<char>)
    ensures
        res@ == s@,
{
    let mut res: Vec<char> = Vec::new();
    for c in it: s.chars()
        invariant
            res@ == it.seq().take(it.index() as int),
    {
        res.push(c);
    }
    res
}

/// Append the characters of a string slice to a character buffer.
pub fn push_str(out: &mut Vec<char>, s: &str)
    ensures
        final(out)@ == old(out)@ + s@,
{
    let mut chars = chars_of(s);
    out.append(&mut chars);
}

/// Trusted: `String::push`, which appends one character.
#[verifier::external_body]
fn string_push(s: &mut String, c: char)
    ensures
        final(s)@ == old(s)@.push(c),
{
    s.push(c);
}

/// The string made of the given characters.
pub fn string_from(chars: &Vec<char>) -> (res: String)
    ensures
        res@ == chars@,
{
    let mut res = String::new();
    let mut i: usize = 0;
    while i < chars.len()
        invariant
            i <= chars@.len(),
            res@ == chars@.take(i as int),
        decreases chars.len() - i,
    {
        string_push(&mut res, chars[i]);
        i = i + 1;
        assert(res@ =~= chars@.take(i as int));
    }
    assert(chars@.take(i as int) =~= chars@);
    res
}

/// The decimal digit character of a number below ten.
pub open spec fn digit(d: nat) -> char
    recommends
        d < 10,
{
    ((d + 48) as u8) as char
}

/// The decimal representation of a natural number, without leading zeros.
pub open spec fn decimal(n: nat) -> Seq<char>
    decreases n,
{
    if n < 10 {
        seq![digit(n)]
    } else {
        decimal(n / 10).push(digit(n % 10))
    }
}

/// Append the decimal representation of a number to a character buffer.
pub fn push_decimal(out: &mut Vec<char>, n: usize)
    ensures
        final(out)@ == old(out)@ + decimal(n as nat),
    decreases n,
{
    if n >= 10 {
        push_decimal(out, n / 10);
    }
    let d: u8 = (n % 10) as u8;
    out.push((d + 48) as char);
    assert(out@ =~= old(out)@ + decimal(n as nat));
}

/// Unicode `White_Space` characters, as `char::is_whitespace` classifies them.
pub open spec fn is_space(c: char) -> bool {
    let u = c as u32;
    ||| 9 <= u <= 13
    ||| u == 32
    ||| u == 0x85
    ||| u == 0xA0
    ||| u == 0x1680
    ||| 0x2000 <= u <= 0x200A
    ||| u == 0x2028
    ||| u == 0x2029
    ||| u == 0x202F
    ||| u == 0x205F
    ||| u == 0x3000
}

/// Whether a character is whitespace.
pub fn char_is_space(c: char) -> (res: bool)
    ensures
        res == is_space(c),
{
    let u = c as u32;
    (9 <= u && u <= 13) || u == 32 || u == 0x85 || u == 0xA0 || u == 0x1680 || (0x2000 <= u && u
        <= 0x200A) || u == 0x2028 || u == 0x2029 || u == 0x202F || u == 0x205F || u == 0x3000
}

/// The text without its trailing whitespace.
pub open spec fn trim_end(s: Seq<char>) -> Seq<char>
    decreases s.len(),
{
    if s.len() > 0 && is_space(s.last()) {
        trim_end(s.drop_last())
    } else {
        s
    }
}

/// The trimmed text is a prefix of the text and does not end in whitespace.
pub proof fn lemma_trim_end(s: Seq<char>)
    ensures
        trim_end(s).len() <= s.len(),
        trim_end(s) =~= s.take(trim_end(s).len() as int),
        trim_end(s).len() > 0 ==> !is_space(trim_end(s).last()),
    decreases s.len(),
{
    if s.len() > 0 && is_space(s.last()) {
        lemma_trim_end(s.drop_last());
    }
}

/// The end of `v[start..end]` once its trailing whitespace is trimmed.
pub fn trimmed_end(v: &Vec<char>, start: usize, end: usize) -> (res: usize)
    requires
        start <= end <= v@.len(),
    ensures
        start <= res <= end,
        v@.subrange(start as int, res as int) == trim_end(v@.subrange(start as int, end as int)),
{
    let mut e = end;
    while e > start && char_is_space(v[e - 1])
        invariant
            start <= e <= end <= v@.len(),
            trim_end(v@.subrange(start as int, end as int)) == trim_end(
                v@.subrange(start as int, e as int),
            ),
        decreases e,
    {
        assert(v@.subrange(start as int, e as int).drop_last() =~= v@.subrange(
            start as int,
            e - 1,
        ));
        e = e - 1;
    }
    proof {
        let t = v@.subrange(start as int, e as int);
        if t.len() > 0 {
            assert(t.last() == v@[e - 1]);
        }
    }
    e
}

/// The first index at or after `from` where `s` holds `c`.
pub open spec fn find_char(s: Seq<char>, c: char, from: int) -> Option<int>
    decreases s.len() - from,
{
    if from < 0 || from >= s.len() {
        None
    } else if s[from] == c {
        Some(from)
    } else {
        find_char(s, c, from + 1)
    }
}

/// The result of `find_char` lies in range and is the first occurrence.
pub proof fn lemma_find_char(s: Seq<char>, c: char, from: int)
    requires
        0 <= from,
    ensures
        find_char(s, c, from) matches Some(k) ==> from <= k < s.len() && s[k] == c && forall|j: int|
            from <= j < k ==> s[j] != c,
        find_char(s, c, from) is None ==> forall|j: int| from <= j < s.len() ==> s[j] != c,
    decreases s.len() - from,
{
    if from < s.len() && s[from] != c {
        lemma_find_char(s, c, from + 1);
    }
}

/// `find_char` from 0 is the first occurrence when all earlier characters differ.
pub proof fn lemma_find_char_first(s: Seq<char>, c: char, k: int)
    requires
        0 <= k < s.len(),
        s[k] == c,
        forall|j: int| 0 <= j < k ==> s[j] != c,
    ensures
        find_char(s, c, 0) == Some(k),
{
    lemma_find_char(s, c, 0);
}

/// The lines of a text: the pieces between `'\n'` characters, without a final
/// empty piece when the text ends with `'\n'`.
pub open spec fn lines(s: Seq<char>) -> Seq<Seq<char>>
    decreases s.len(),
{
    if s.len() == 0 {
        Seq::empty()
    } else {
        match find_char(s, '\n', 0) {
            None => seq![s],
            Some(k) => {
                proof {
                    lemma_find_char(s, '\n', 0);
                }
                seq![s.take(k)] + lines(s.skip(k + 1))
            },
        }
    }
}

/// No line contains `'\n'`.
pub proof fn lemma_lines_no_newline(s: Seq<char>)
    ensures
        forall|i: int, j: int|
            0 <= i < lines(s).len() && 0 <= j < lines(s)[i].len() ==> #[trigger] lines(s)[i][j]
                != '\n',
    decreases s.len(),
{
    if s.len() > 0 {
        lemma_find_char(s, '\n', 0);
        match find_char(s, '\n', 0) {
            None => {},
            Some(k) => {
                lemma_lines_no_newline(s.skip(k + 1));
                let rest = lines(s.skip(k + 1));
                assert forall|i: int, j: int|
                    0 <= i < lines(s).len() && 0 <= j < lines(s)[i].len() implies #[trigger] lines(
                    s,
                )[i][j] != '\n' by {
                    if i > 0 {
                        assert(lines(s)[i] == rest[i - 1]);
                    }
                }
            },
        }
    }
}

/// Whether `needle` occurs in `hay`.
pub open spec fn contains(hay: Seq<char>, needle: Seq<char>) -> bool {
    exists|i: int| 0 <= i && i + needle.len() <= hay.len() && #[trigger] hay.subrange(i, i + needle.len()) == needle
}

/// Whether `needle` occurs in `hay` (naive search).
pub fn seq_contains(hay: &[char], needle: &[char]) -> (res: bool)
    ensures
        res == contains(hay@, needle@),
{
    if needle.len() > hay.len() {
        return false;
    }
    let mut i: usize = 0;
    let hlen = hay.len();
    let last = hlen - needle.len();
    while i <= last
        invariant
            needle@.len() <= hay@.len(),
            last == hay@.len() - needle@.len(),
            hlen == hay@.len(),
            i <= last + 1,
            forall|k: int| 0 <= k < i ==> #[trigger] hay@.subrange(k, k + needle@.len()) != needle@,
        decreases hay.len() - i,
    {
        let mut j: usize = 0;
        let mut same = true;
        while j < needle.len()
            invariant
                i + needle@.len() <= hay@.len(),
                i <= last,
                hlen == hay@.len(),
                last == hay@.len() - needle@.len(),
                j <= needle@.len(),
                same == forall|m: int| 0 <= m < j ==> hay@[i + m] == needle@[m],
            decreases needle.len() - j,
        {
            assert(i + j < hlen);
            if hay[i + j] != needle[j] {
                same = false;
            }
            j = j + 1;
        }
        if same {
            assert(hay@.subrange(i as int, i + needle@.len()) =~= needle@);
            return true;
        }
        assert(hay@.subrange(i as int, i + needle@.len()) != needle@) by {
            let m = choose|m: int| 0 <= m < needle@.len() && hay@[i + m] != needle@[m];
            assert(hay@.subrange(i as int, i + needle@.len())[m] == hay@[i + m]);
        }
        i = i + 1;
    }
    proof {
        assert forall|k: int| 0 <= k && k + needle@.len() <= hay@.len() implies #[trigger] hay@.subrange(k, k + needle@.len()) != needle@ by {
            assert(k <= last);
        }
    }
    false
}

/// Whether `s` starts with `prefix`.
pub open spec fn starts_with(s: Seq<char>, prefix: Seq<char>) -> bool {
    prefix.len() <= s.len() && s.take(prefix.len() as int) == prefix
}

/// Whether `s` starts with `prefix`.
pub fn seq_starts_with(s: &[char], prefix: &[char]) -> (res: bool)
    ensures
        res == starts_with(s@, prefix@),
{
    if prefix.len() > s.len() {
        return false;
    }
    let mut j: usize = 0;
    while j < prefix.len()
        invariant
            prefix@.len() <= s@.len(),
            j <= prefix@.len(),
            forall|m: int| 0 <= m < j ==> s@[m] == prefix@[m],
        decreases prefix.len() - j,
    {
        if s[j] != prefix[j] {
            assert(s@.take(prefix@.len() as int)[j as int] != prefix@[j as int]);
            return false;
        }
        j = j + 1;
    }
    assert(s@.take(prefix@.len() as int) =~= prefix@);
    true
}

/// Whether two character sequences are equal.
pub fn seq_equal(a: &[char], b: &[char]) -> (res: bool)
    ensures
        res == (a@ == b@),
{
    if a.len() != b.len() {
        return false;
    }
    let r = seq_starts_with(a, b);
    proof {
        if r {
            assert(a@ =~= a@.take(b@.len() as int));
        } else {
            assert(a@.take(b@.len() as int) =~= a@);
        }
    }
    r
}

/// Whether two string slices hold the same characters.
pub fn str_eq(a: &str, b: &str) -> (res: bool)
    ensures
        res == (a@ == b@),
{
    let ac = chars_of(a);
    let bc = chars_of(b);
    seq_equal(ac.as_slice(), bc.as_slice())
}

/// Whether every character of the text is whitespace.
pub open spec fn all_space(s: Seq<char>) -> bool {
    forall|i: int| 0 <= i < s.len() ==> #[trigger] is_space(s[i])
}

/// Whether every character of the text is whitespace.
pub fn is_all_space(s: &[char]) -> (res: bool)
    ensures
        res == all_space(s@),
{
    let mut i: usize = 0;
    while i < s.len()
        invariant
            i <= s@.len(),
            forall|k: int| 0 <= k < i ==> #[trigger] is_space(s@[k]),
        decreases s.len() - i,
    {
        if !char_is_space(s[i]) {
            return false;
        }
        i = i + 1;
    }
    true
}

/// Whether `s` ends with `suffix`.
pub open spec fn ends_with(s: Seq<char>, suffix: Seq<char>) -> bool {
    suffix.len() <= s.len() && s.skip(s.len() - suffix.len()) == suffix
}

/// Whether `s` ends with `suffix`.
pub fn str_ends_with(s: &str, suffix: &str) -> (res: bool)
    ensures
        res == ends_with(s@, suffix@),
{
    let sc = chars_of(s);
    let xc = chars_of(suffix);
    if xc.len() > sc.len() {
        return false;
    }
    let off = sc.len() - xc.len();
    let mut j: usize = 0;
    while j < xc.len()
        invariant
            sc@ == s@,
            xc@ == suffix@,
            xc@.len() <= sc@.len() <= usize::MAX,
            off == sc@.len() - xc@.len(),
            j <= xc@.len(),
            forall|m: int| 0 <= m < j ==> sc@[off + m] == xc@[m],
        decreases xc.len() - j,
    {
        if sc[off + j] != xc[j] {
            assert(s@.skip(s@.len() - suffix@.len())[j as int] != suffix@[j as int]);
            return false;
        }
        j = j + 1;
    }
    assert(s@.skip(s@.len() - suffix@.len()) =~= suffix@);
    true
}

/// The largest index below `n` where `s` holds `c`.
pub open spec fn rfind_char(s: Seq<char>, c: char, n: int) -> Option<int>
    decreases n,
{
    if n <= 0 {
        None
    } else if s[n - 1] == c {
        Some(n - 1)
    } else {
        rfind_char(s, c, n - 1)
    }
}

pub proof fn lemma_rfind_char(s: Seq<char>, c: char, n: int)
    requires
        n <= s.len(),
    ensures
        rfind_char(s, c, n) matches Some(k) ==> 0 <= k < n && s[k] == c && forall|j: int|
            k < j < n ==> s[j] != c,
        rfind_char(s, c, n) is None ==> forall|j: int| 0 <= j < n ==> s[j] != c,
    decreases n,
{
    if n > 0 && s[n - 1] != c {
        lemma_rfind_char(s, c, n - 1);
    }
}

/// The index just after the last occurrence of `c` in `s`, or 0 when there is none.
pub fn after_last(s: &Vec<char>, c: char) -> (res: usize)
    ensures
        res <= s@.len(),
        rfind_char(s@, c, s@.len() as int) matches Some(k) ==> res == k + 1,
        rfind_char(s@, c, s@.len() as int) is None ==> res == 0,
{
    let mut i = s.len();
    proof {
        lemma_rfind_char(s@, c, s@.len() as int);
    }
    while i > 0 && s[i - 1] != c
        invariant
            i <= s@.len(),
            rfind_char(s@, c, s@.len() as int) == rfind_char(s@, c, i as int),
        decreases i,
    {
        i = i - 1;
    }
    i
}

/// Whether `x` is a subsequence of `y`: its characters occur in `y` in order.
pub open spec fn is_subseq(x: Seq<char>, y: Seq<char>) -> bool
    decreases y.len(),
{
    if x.len() == 0 {
        true
    } else if y.len() == 0 {
        false
    } else if x[0] == y[0] {
        is_subseq(x.drop_first(), y.drop_first())
    } else {
        is_subseq(x, y.drop_first())
    }
}

/// Dropping the first character keeps a subsequence.
pub proof fn lemma_subseq_drop_first(x: Seq<char>, y: Seq<char>)
    requires
        is_subseq(x, y),
        x.len() > 0,
    ensures
        is_subseq(x.drop_first(), y),
    decreases y.len(), 1int,
{
    if x[0] == y[0] {
        lemma_subseq_tail(x.drop_first(), y);
    } else {
        lemma_subseq_drop_first(x, y.drop_first());
        lemma_subseq_tail(x.drop_first(), y);
    }
}

/// A subsequence of the tail of `y` is a subsequence of `y`.
pub proof fn lemma_subseq_tail(x: Seq<char>, y: Seq<char>)
    requires
        y.len() > 0,
        is_subseq(x, y.drop_first()),
    ensures
        is_subseq(x, y),
    decreases y.len(), 0int,
{
    if x.len() > 0 && x[0] == y[0] {
        lemma_subseq_drop_first(x, y.drop_first());
    }
}

/// A subsequence of `y` is one of anything that ends with `y`.
pub proof fn lemma_subseq_prepend(x: Seq<char>, y: Seq<char>, z: Seq<char>)
    requires
        is_subseq(x, y),
    ensures
        is_subseq(x, z + y),
    decreases z.len(),
{
    if z.len() > 0 {
        lemma_subseq_prepend(x, y, z.drop_first());
        assert((z + y).drop_first() =~= z.drop_first() + y);
        lemma_subseq_tail(x, z + y);
    } else {
        assert(z + y =~= y);
    }
}

/// Every sequence is a subsequence of itself.
pub proof fn lemma_subseq_refl(y: Seq<char>)
    ensures
        is_subseq(y, y),
    decreases y.len(),
{
    if y.len() > 0 {
        lemma_subseq_refl(y.drop_first());
    }
}

/// Subsequences of two parts make a subsequence of their concatenation.
pub proof fn lemma_subseq_concat(x: Seq<char>, y: Seq<char>, u: Seq<char>, v: Seq<char>)
    requires
        is_subseq(x, y),
        is_subseq(u, v),
    ensures
        is_subseq(x + u, y + v),
    decreases y.len(),
{
    if x.len() == 0 {
        assert(x + u =~= u);
        lemma_subseq_prepend(u, v, y);
    } else {
        assert(y.len() > 0);
        assert((x + u)[0] == x[0]);
        assert((y + v)[0] == y[0]);
        assert((y + v).drop_first() =~= y.drop_first() + v);
        if x[0] == y[0] {
            lemma_subseq_concat(x.drop_first(), y.drop_first(), u, v);
            assert((x + u).drop_first() =~= x.drop_first() + u);
        } else {
            lemma_subseq_concat(x, y.drop_first(), u, v);
        }
    }
}

} // verus!
