//! Character-level text operations: whitespace trimming, substring search,
//! lexicographic comparison, ASCII case folding and decimal rendering.
use vstd::prelude::*;

verus! {

/// The Unicode `White_Space` property, which `char::is_whitespace` tests.
pub open spec fn is_white_space(c: char) -> bool {
    let u = c as int;
    ||| 0x9 <= u <= 0xd
    ||| u == 0x20
    ||| u == 0x85
    ||| u == 0xa0
    ||| u == 0x1680
    ||| 0x2000 <= u <= 0x200a
    ||| u == 0x2028
    ||| u == 0x2029
    ||| u == 0x202f
    ||| u == 0x205f
    ||| u == 0x3000
}

pub fn is_whitespace_char(c: char) -> (r: bool)
    ensures
        r == is_white_space(c),
{
    let u = c as u32;
    (0x9 <= u && u <= 0xd) || u == 0x20 || u == 0x85 || u == 0xa0 || u == 0x1680 || (0x2000 <= u
        && u <= 0x200a) || u == 0x2028 || u == 0x2029 || u == 0x202f || u == 0x205f || u == 0x3000
}

/// The text without its leading white space.
pub open spec fn trim_start_seq(s: Seq<char>) -> Seq<char>
    decreases s.len(),
{
    if s.len() > 0 && is_white_space(s[0]) {
        trim_start_seq(s.drop_first())
    } else {
        s
    }
}

/// The text without its trailing white space.
pub open spec fn trim_end_seq(s: Seq<char>) -> Seq<char>
    decreases s.len(),
{
    if s.len() > 0 && is_white_space(s.last()) {
        trim_end_seq(s.drop_last())
    } else {
        s
    }
}

/// The text without leading and trailing white space, as `str::trim` gives it.
pub open spec fn trim_seq(s: Seq<char>) -> Seq<char> {
    trim_end_seq(trim_start_seq(s))
}

/// Converts a string to its characters.
pub fn chars_of(s: &str) -> (res: Vec<char>)
    ensures
        res@ == s@,
{
    let mut res: Vec<char> = Vec::new();
    for c in it: s.chars()
        invariant
            it.seq() == s@,
            res@ == it.seq().take(it.index() as int),
    {
        res.push(c);
    }
    assert(res@ =~= s@);
    res
}

/// Appends one character to a string, with `String::push`.
#[verifier::external_body]
fn push_char(s: &mut String, c: char)
    ensures
        final(s)@ == old(s)@.push(c),
{
    s.push(c);
}

/// Builds a string from characters.
pub fn string_of(chars: &[char]) -> (res: String)
    ensures
        res@ == chars@,
{
    let mut res = String::new();
    let mut i: usize = 0;
    while i < chars.len()
        invariant
            i <= chars.len(),
            res@ == chars@.take(i as int),
        decreases chars.len() - i,
    {
        push_char(&mut res, chars[i]);
        assert(chars@.take(i + 1) =~= chars@.take(i as int).push(chars@[i as int]));
        i = i + 1;
    }
    assert(chars@.take(chars.len() as int) =~= chars@);
    res
}

/// Compares two string slices character by character.
pub(crate) fn str_equal(a: &str, b: &str) -> (res: bool)
    ensures
        res == (a@ == b@),
{
    let x = chars_of(a);
    let y = chars_of(b);
    if x.len() != y.len() {
        return false;
    }
    let mut i: usize = 0;
    while i < x.len()
        invariant
            x@ == a@,
            y@ == b@,
            x.len() == y.len(),
            i <= x.len(),
            forall|k: int| 0 <= k < i ==> x@[k] == y@[k],
        decreases x.len() - i,
    {
        if x[i] != y[i] {
            return false;
        }
        i = i + 1;
    }
    assert(x@ =~= y@);
    true
}

/// The Unicode lowercase mapping that `str::to_lowercase` applies.
pub uninterp spec fn lowercase(text: Seq<char>) -> Seq<char>;

/// Lowercases a string with `str::to_lowercase`.
#[verifier::external_body]
pub(crate) fn to_lowercase(s: &str) -> (res: String)
    ensures
        res@ == lowercase(s@),
{
    s.to_lowercase()
}

/// Removes leading and trailing white space.
pub fn trim_chars(s: &[char]) -> (res: Vec<char>)
    ensures
        res@ == trim_seq(s@),
{
    let n = s.len();
    let mut i: usize = 0;
    assert(s@.subrange(0, n as int) =~= s@);
    while i < n && is_whitespace_char(s[i])
        invariant
            i <= n,
            n == s@.len(),
            trim_start_seq(s@) == trim_start_seq(s@.subrange(i as int, n as int)),
        decreases n - i,
    {
        assert(s@.subrange(i as int, n as int).drop_first() =~= s@.subrange(i + 1, n as int));
        i = i + 1;
    }
    assert(trim_start_seq(s@.subrange(i as int, n as int)) == s@.subrange(i as int, n as int));
    let mut j: usize = n;
    while j > i && is_whitespace_char(s[j - 1])
        invariant
            i <= j <= n,
            n == s@.len(),
            trim_start_seq(s@) == s@.subrange(i as int, n as int),
            trim_end_seq(s@.subrange(i as int, n as int)) == trim_end_seq(
                s@.subrange(i as int, j as int),
            ),
        decreases j,
    {
        assert(s@.subrange(i as int, j as int).drop_last() =~= s@.subrange(i as int, j - 1));
        j = j - 1;
    }
    let mut res: Vec<char> = Vec::new();
    let mut k: usize = i;
    while k < j
        invariant
            i <= k <= j <= n,
            n == s@.len(),
            res@ =~= s@.subrange(i as int, k as int),
        decreases j - k,
    {
        res.push(s[k]);
        k = k + 1;
    }
    res
}

/// Trims a string, as `str::trim` does.
pub fn trim_str(s: &str) -> (res: String)
    ensures
        res@ == trim_seq(s@),
{
    let chars = chars_of(s);
    let trimmed = trim_chars(chars.as_slice());
    string_of(trimmed.as_slice())
}

/// `needle` occurs in `hay` starting at index `i`.
pub open spec fn occurs_at(hay: Seq<char>, needle: Seq<char>, i: int) -> bool {
    &&& 0 <= i
    &&& i + needle.len() <= hay.len()
    &&& hay.subrange(i, i + needle.len()) == needle
}

/// `needle` is a substring of `hay`.
pub open spec fn contains_seq(hay: Seq<char>, needle: Seq<char>) -> bool {
    exists|i: int| occurs_at(hay, needle, i)
}

/// Whether `needle` occurs in `hay` at index `i`.
fn occurs_at_exec(hay: &[char], needle: &[char], i: usize) -> (r: bool)
    requires
        i + needle@.len() <= hay@.len(),
    ensures
        r == occurs_at(hay@, needle@, i as int),
{
    let m = needle.len();
    let mut k: usize = 0;
    while k < m
        invariant
            k <= m,
            m == needle@.len(),
            i + m <= hay.len(),
            forall|t: int| 0 <= t < k ==> hay@[i + t] == needle@[t],
        decreases m - k,
    {
        if hay[i + k] != needle[k] {
            assert(hay@.subrange(i as int, i + m)[k as int] != needle@[k as int]);
            return false;
        }
        k = k + 1;
    }
    assert(hay@.subrange(i as int, i + m) =~= needle@);
    true
}

/// Whether `needle` is a substring of `hay`, as `str::contains` decides.
pub fn contains_chars(hay: &[char], needle: &[char]) -> (r: bool)
    ensures
        r == contains_seq(hay@, needle@),
{
    let n = hay.len();
    let m = needle.len();
    if m > n {
        return false;
    }
    if m == 0 {
        assert(hay@.subrange(0, 0) =~= needle@);
        assert(occurs_at(hay@, needle@, 0));
        return true;
    }
    let mut i: usize = 0;
    while i <= n - m
        invariant
            n == hay@.len(),
            m == needle@.len(),
            1 <= m <= n,
            i <= n - m + 1,
            forall|t: int| 0 <= t < i ==> !occurs_at(hay@, needle@, t),
        decreases n - i,
    {
        if occurs_at_exec(hay, needle, i) {
            return true;
        }
        i = i + 1;
    }
    false
}

/// The first index at or after `k` where a non-empty `needle` occurs in `hay`.
pub open spec fn first_from(hay: Seq<char>, needle: Seq<char>, k: int) -> Option<int>
    decreases hay.len() - k,
{
    if k < 0 || k + needle.len() > hay.len() {
        None
    } else if needle.len() == 0 || occurs_at(hay, needle, k) {
        Some(k)
    } else {
        first_from(hay, needle, k + 1)
    }
}

/// Finds the first occurrence of `needle` in `hay` at or after `from`.
pub fn find_from(hay: &[char], needle: &[char], from: usize) -> (res: Option<usize>)
    ensures
        match res {
            Some(i) => first_from(hay@, needle@, from as int) == Some(i as int),
            None => first_from(hay@, needle@, from as int) is None,
        },
        res matches Some(i) ==> from <= i && i + needle@.len() <= hay@.len(),
{
    let n = hay.len();
    let m = needle.len();
    if m > n {
        return None;
    }
    if m == 0 {
        return if from <= n {
            Some(from)
        } else {
            None
        };
    }
    let mut i: usize = from;
    while i <= n - m
        invariant
            n == hay@.len(),
            m == needle@.len(),
            1 <= m <= n,
            from <= i,
            first_from(hay@, needle@, from as int) == first_from(hay@, needle@, i as int),
        decreases n - i,
    {
        if occurs_at_exec(hay, needle, i) {
            return Some(i);
        }
        i = i + 1;
    }
    None
}

/// The text split at each `'\n'`: one piece more than there are newlines.
pub open spec fn pieces(s: Seq<char>) -> Seq<Seq<char>>
    decreases s.len(),
{
    if s.len() == 0 {
        seq![seq![]]
    } else {
        let p = pieces(s.drop_last());
        if s.last() == '\n' {
            p.push(seq![])
        } else {
            p.update(p.len() - 1, p.last().push(s.last()))
        }
    }
}

/// A line without the `'\r'` of a `"\r\n"` line ending.
pub open spec fn strip_cr(x: Seq<char>) -> Seq<char> {
    if x.len() > 0 && x.last() == '\r' {
        x.drop_last()
    } else {
        x
    }
}

/// The lines of a text, as `str::lines` gives them: split at `"\n"` or `"\r\n"`, with
/// no empty line after a final line ending.
pub open spec fn lines_of(s: Seq<char>) -> Seq<Seq<char>> {
    let p = pieces(s);
    let full = p.drop_last().map_values(|x: Seq<char>| strip_cr(x));
    if p.last().len() == 0 {
        full
    } else {
        full.push(p.last())
    }
}

/// The character sequences of a list of character vectors.
pub open spec fn rows(v: Seq<Vec<char>>) -> Seq<Seq<char>> {
    v.map_values(|x: Vec<char>| x@)
}

/// Splits a text into its lines (see `lines_of`).
pub fn split_lines(s: &str) -> (res: Vec<Vec<char>>)
    ensures
        rows(res@) == lines_of(s@),
{
    let c = chars_of(s);
    let mut done: Vec<Vec<char>> = Vec::new();
    let mut cur: Vec<char> = Vec::new();
    let mut k: usize = 0;
    while k < c.len()
        invariant
            k <= c.len(),
            c@ == s@,
            pieces(c@.take(k as int)) == rows(done@).push(cur@),
        decreases c.len() - k,
    {
        assert(c@.take(k + 1).drop_last() =~= c@.take(k as int));
        let ch = c[k];
        if ch == '\n' {
            let ghost d = rows(done@);
            let finished = cur;
            done.push(finished);
            cur = Vec::new();
            assert(rows(done@) =~= d.push(finished@));
            assert(pieces(c@.take(k + 1)) =~= rows(done@).push(cur@));
        } else {
            cur.push(ch);
            assert(pieces(c@.take(k + 1)) =~= rows(done@).push(cur@));
        }
        k = k + 1;
    }
    assert(c@.take(c.len() as int) =~= c@);
    let ghost p = pieces(s@);
    assert(p.drop_last() =~= rows(done@));
    let mut res: Vec<Vec<char>> = Vec::new();
    let mut i: usize = 0;
    while i < done.len()
        invariant
            i <= done.len(),
            rows(res@) =~= rows(done@).take(i as int).map_values(
                |x: Seq<char>| strip_cr(x),
            ),
        decreases done.len() - i,
    {
        let mut line = done[i].clone();
        if line.len() > 0 && line[line.len() - 1] == '\r' {
            line.pop();
        }
        assert(line@ == strip_cr(rows(done@)[i as int]));
        let ghost r = rows(res@);
        res.push(line);
        assert(rows(res@) =~= r.push(line@));
        assert(rows(done@).take(i + 1).map_values(|x: Seq<char>| strip_cr(x)) =~= r.push(
            line@,
        ));
        i = i + 1;
    }
    assert(rows(done@).take(done.len() as int) =~= rows(done@));
    if cur.len() > 0 {
        let ghost r = rows(res@);
        res.push(cur);
        assert(rows(res@) =~= r.push(p.last()));
    }
    res
}

/// Code point order between two characters.
pub open spec fn char_lt(a: char, b: char) -> bool {
    (a as int) < (b as int)
}

/// Lexicographic order by code point, which is the byte order of UTF-8 text and the order
/// of `String`'s `Ord`.
pub open spec fn seq_less(a: Seq<char>, b: Seq<char>) -> bool
    decreases a.len(),
{
    if a.len() == 0 {
        b.len() > 0
    } else if b.len() == 0 {
        false
    } else if a[0] != b[0] {
        char_lt(a[0], b[0])
    } else {
        seq_less(a.drop_first(), b.drop_first())
    }
}

pub proof fn lemma_seq_less_irreflexive(a: Seq<char>)
    ensures
        !seq_less(a, a),
    decreases a.len(),
{
    if a.len() > 0 {
        lemma_seq_less_irreflexive(a.drop_first());
    }
}

pub proof fn lemma_seq_less_total(a: Seq<char>, b: Seq<char>)
    ensures
        a == b || seq_less(a, b) || seq_less(b, a),
    decreases a.len(),
{
    if a.len() > 0 && b.len() > 0 && a[0] == b[0] {
        lemma_seq_less_total(a.drop_first(), b.drop_first());
        if a.drop_first() == b.drop_first() {
            assert(a =~= seq![a[0]] + a.drop_first());
            assert(b =~= seq![b[0]] + b.drop_first());
        }
    } else if a.len() == 0 && b.len() == 0 {
        assert(a =~= b);
    } else if a.len() > 0 && b.len() > 0 {
        assert((a[0] as int) != (b[0] as int));
    }
}

pub proof fn lemma_seq_less_asymmetric(a: Seq<char>, b: Seq<char>)
    ensures
        !(seq_less(a, b) && seq_less(b, a)),
    decreases a.len(),
{
    if a.len() > 0 && b.len() > 0 && a[0] == b[0] {
        lemma_seq_less_asymmetric(a.drop_first(), b.drop_first());
    }
}

pub proof fn lemma_seq_less_transitive(a: Seq<char>, b: Seq<char>, c: Seq<char>)
    requires
        seq_less(a, b),
        seq_less(b, c),
    ensures
        seq_less(a, c),
    decreases a.len(),
{
    if a.len() > 0 && b.len() > 0 && c.len() > 0 && a[0] == b[0] && b[0] == c[0] {
        lemma_seq_less_transitive(a.drop_first(), b.drop_first(), c.drop_first());
    }
}

/// A three-way comparison result.
#[derive(Clone, Copy, PartialEq, Eq, Structural, Debug)]
pub enum Order {
    Less,
    Equal,
    Greater,
}

/// Lexicographic comparison of character sequences.
pub fn compare_chars(a: &[char], b: &[char]) -> (r: Order)
    ensures
        r == Order::Less <==> seq_less(a@, b@),
        r == Order::Equal <==> a@ == b@,
        r == Order::Greater <==> seq_less(b@, a@),
{
    proof {
        lemma_seq_less_irreflexive(a@);
        lemma_seq_less_asymmetric(a@, b@);
        lemma_seq_less_total(a@, b@);
    }
    let n = a.len();
    let m = b.len();
    let mut i: usize = 0;
    assert(a@.subrange(0, n as int) =~= a@);
    assert(b@.subrange(0, m as int) =~= b@);
    while i < n && i < m && a[i] == b[i]
        invariant
            i <= n,
            i <= m,
            n == a@.len(),
            m == b@.len(),
            seq_less(a@, b@) == seq_less(a@.subrange(i as int, n as int), b@.subrange(i as int, m as int)),
            seq_less(b@, a@) == seq_less(b@.subrange(i as int, m as int), a@.subrange(i as int, n as int)),
            forall|t: int| 0 <= t < i ==> a@[t] == b@[t],
        decreases n - i,
    {
        assert(a@.subrange(i as int, n as int).drop_first() =~= a@.subrange(i + 1, n as int));
        assert(b@.subrange(i as int, m as int).drop_first() =~= b@.subrange(i + 1, m as int));
        i = i + 1;
    }
    let ghost sa = a@.subrange(i as int, n as int);
    let ghost sb = b@.subrange(i as int, m as int);
    if i < n && i < m {
        assert(sa[0] == a@[i as int] && sb[0] == b@[i as int]);
    }
    if i == n && i == m {
        assert(a@ =~= b@);
        Order::Equal
    } else if i == n {
        assert(a@ != b@);
        Order::Less
    } else if i == m {
        assert(a@ != b@);
        Order::Greater
    } else {
        assert(a@[i as int] != b@[i as int]);
        assert(a@ != b@);
        if a[i] < b[i] {
            Order::Less
        } else {
            Order::Greater
        }
    }
}

/// ASCII lowercase of one character, as `char::to_ascii_lowercase` maps it.
pub open spec fn ascii_lower(c: char) -> char {
    if 'A' <= c && c <= 'Z' {
        ((c as int) + 32) as char
    } else {
        c
    }
}

/// Equality that ignores ASCII case, as `str::eq_ignore_ascii_case` decides it.
pub open spec fn eq_ignore_ascii_case_seq(a: Seq<char>, b: Seq<char>) -> bool {
    &&& a.len() == b.len()
    &&& forall|i: int| 0 <= i < a.len() ==> ascii_lower(a[i]) == ascii_lower(b[i])
}

fn ascii_lower_exec(c: char) -> (r: char)
    ensures
        r == ascii_lower(c),
{
    if 'A' <= c && c <= 'Z' {
        let b = (c as u8) + 32;
        b as char
    } else {
        c
    }
}

pub fn eq_ignore_ascii_case(a: &[char], b: &[char]) -> (r: bool)
    ensures
        r == eq_ignore_ascii_case_seq(a@, b@),
{
    if a.len() != b.len() {
        return false;
    }
    let n = a.len();
    let mut i: usize = 0;
    while i < n
        invariant
            i <= n,
            n == a@.len(),
            n == b@.len(),
            forall|t: int| 0 <= t < i ==> ascii_lower(a@[t]) == ascii_lower(b@[t]),
        decreases n - i,
    {
        if ascii_lower_exec(a[i]) != ascii_lower_exec(b[i]) {
            return false;
        }
        i = i + 1;
    }
    true
}

/// The character of a decimal digit.
pub open spec fn digit_char(d: nat) -> char {
    ((d + 48) as u32) as char
}

/// The decimal digits of a number, as `Display` writes an unsigned integer.
pub open spec fn decimal_seq(n: nat) -> Seq<char>
    decreases n,
{
    if n < 10 {
        seq![digit_char(n)]
    } else {
        decimal_seq(n / 10).push(digit_char(n % 10))
    }
}

fn digit_char_exec(d: u64) -> (c: char)
    requires
        d < 10,
    ensures
        c == digit_char(d as nat),
{
    let u = (d + 48) as u8;
    u as char
}

/// Renders a number in decimal.
pub fn decimal_text(n: u64) -> (res: String)
    ensures
        res@ == decimal_seq(n as nat),
{
    let mut digits: Vec<char> = Vec::new();
    let mut rest = n;
    while rest >= 10
        invariant
            decimal_seq(n as nat) == decimal_seq(rest as nat) + digits@,
        decreases rest,
    {
        let d = rest % 10;
        let c = digit_char_exec(d);
        assert(decimal_seq(rest as nat) == decimal_seq((rest / 10) as nat).push(c));
        let ghost before = digits@;
        digits.insert(0, c);
        assert(digits@ =~= seq![c] + before);
        assert(decimal_seq((rest / 10) as nat).push(c) + before =~= decimal_seq(
            (rest / 10) as nat,
        ) + digits@);
        rest = rest / 10;
    }
    let first = digit_char_exec(rest);
    let ghost before = digits@;
    digits.insert(0, first);
    assert(digits@ =~= seq![first] + before);
    assert(decimal_seq(rest as nat) == seq![first]);
    string_of(digits.as_slice())
}

} // verus!
