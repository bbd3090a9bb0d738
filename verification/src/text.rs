//! Text: decimal numbers, white space, and the few ways of taking a line apart
//! that reading kernel files and command-line values needs.

use vstd::prelude::*;

verus! {

/// `String::push` appends one character.
pub assume_specification[ String::push ](s: &mut String, c: char)
    ensures
        final(s)@ == old(s)@.push(c),
;

/// `char::is_whitespace`: whether the character has Unicode's `White_Space`
/// property.
pub assume_specification[ char::is_whitespace ](c: char) -> (r: bool)
    ensures
        r == white_space(c),
;

/// The characters with Unicode's `White_Space` property.
pub open spec fn white_space(c: char) -> bool {
    let u = c as u32;
    ||| 0x9 <= u <= 0xd
    ||| u == 0x20
    ||| u == 0x85
    ||| u == 0xa0
    ||| u == 0x1680
    ||| 0x2000 <= u <= 0x200a
    ||| u == 0x2028
    ||| u == 0x2029
    ||| u == 0x202f
    ||| u == 0x205f
    ||| u == 0x3000
}

/// The text's characters.
pub fn chars_of(s: &str) -> (v: Vec<char>)
    ensures
        v@ == s@,
{
    let mut v: Vec<char> = Vec::new();
    for c in it: s.chars()
        invariant
            v@ == it.seq().take(it.index()),
            it.seq() == s@,
    {
        v.push(c);
        assert(it.seq().take(it.index() + 1) =~= it.seq().take(it.index()).push(c));
    }
    v
}

/// The text made of these characters.
pub fn string_of(v: &[char]) -> (s: String)
    ensures
        s@ == v@,
{
    let mut s = String::new();
    let mut i: usize = 0;
    while i < v.len()
        invariant
            i <= v@.len(),
            s@ == v@.take(i as int),
        decreases v@.len() - i,
    {
        s.push(v[i]);
        i = i + 1;
        assert(v@.take(i as int) =~= v@.take(i - 1).push(v@[i - 1]));
    }
    assert(v@.take(v@.len() as int) =~= v@);
    s
}

/// The character of one decimal digit.
pub open spec fn digit(d: nat) -> char {
    (48 + d) as char
}

/// `n` written in decimal, without leading zeros.
pub open spec fn decimal(n: nat) -> Seq<char>
    decreases n,
{
    if n < 10 {
        seq![digit(n)]
    } else {
        decimal(n / 10).push(digit(n % 10))
    }
}

/// `n` written in decimal, with a minus sign if it is negative.
pub open spec fn signed_decimal(n: int) -> Seq<char> {
    if n < 0 {
        seq!['-'] + decimal((-n) as nat)
    } else {
        decimal(n as nat)
    }
}

/// Whether the text is one or more decimal digits.
pub open spec fn is_digits(s: Seq<char>) -> bool {
    s.len() > 0 && forall|i: int| 0 <= i < s.len() ==> '0' <= #[trigger] s[i] <= '9'
}

/// The number that a text of decimal digits stands for.
pub open spec fn digits_value(s: Seq<char>) -> nat
    decreases s.len(),
{
    if s.len() == 0 {
        0
    } else {
        digits_value(s.drop_last()) * 10 + (s.last() as nat - 48) as nat
    }
}

/// Reading a number's decimal form gives the number back.
pub proof fn decimal_reads_back(n: nat)
    ensures
        is_digits(decimal(n)),
        digits_value(decimal(n)) == n,
    decreases n,
{
    if n < 10 {
        assert(decimal(n).drop_last() =~= Seq::<char>::empty());
        assert(digits_value(decimal(n).drop_last()) == 0);
    } else {
        decimal_reads_back(n / 10);
        assert(decimal(n).drop_last() =~= decimal(n / 10));
    }
}

/// `n` in decimal.
pub fn decimal_string(n: u64) -> (s: String)
    ensures
        s@ == decimal(n as nat),
    decreases n,
{
    let d: u8 = (n % 10) as u8;
    let c: char = (48 + d) as char;
    if n < 10 {
        let mut s = String::new();
        s.push(c);
        assert(s@ =~= decimal(n as nat));
        s
    } else {
        let mut s = decimal_string(n / 10);
        s.push(c);
        s
    }
}

/// `n` in decimal, with a minus sign if it is negative.
pub fn signed_string(n: i32) -> (s: String)
    ensures
        s@ == signed_decimal(n as int),
{
    if n < 0 {
        let mut s = String::new();
        s.push('-');
        let m: i64 = -(n as i64);
        let t = decimal_string(m as u64);
        s.append(t.as_str());
        assert(s@ =~= signed_decimal(n as int));
        s
    } else {
        decimal_string(n as u64)
    }
}

/// The number that `str::parse::<u64>` reads: an optional plus sign, then
/// nothing but digits.
pub open spec fn parsed_u64(s: Seq<char>) -> Option<u64> {
    let body = if s.len() > 0 && s[0] == '+' {
        s.skip(1)
    } else {
        s
    };
    if is_digits(body) && digits_value(body) <= u64::MAX {
        Some(digits_value(body) as u64)
    } else {
        None
    }
}

/// What `str::parse::<u64>` says of a text that it does not accept.
pub uninterp spec fn parse_error_text(s: Seq<char>) -> Seq<char>;

/// `str::parse::<u64>`, its error turned into the text that it displays as. A
/// text is accepted exactly if it is an optional plus sign followed by digits
/// whose value fits.
#[verifier::external_body]
pub(crate) fn parse_u64(s: &str) -> (r: Result<u64, String>)
    ensures
        match r {
            Ok(n) => parsed_u64(s@) == Some(n),
            Err(m) => parsed_u64(s@) is None && m@ == parse_error_text(s@),
        },
{
    s.parse::<u64>().map_err(|e| e.to_string())
}

/// What formatting a text with `{:?}` gives: the text in quotes, with escapes.
pub uninterp spec fn debug_form(s: Seq<char>) -> Seq<char>;

/// `format!` with `{:?}` on a text.
#[verifier::external_body]
pub(crate) fn quoted(s: &str) -> (r: String)
    ensures
        r@ == debug_form(s@),
{
    format!("{:?}", s)
}

/// The text without the white space at its front.
pub open spec fn trim_start(s: Seq<char>) -> Seq<char>
    decreases s.len(),
{
    if s.len() > 0 && white_space(s[0]) {
        trim_start(s.drop_first())
    } else {
        s
    }
}

/// The text without the white space at its end.
pub open spec fn trim_end(s: Seq<char>) -> Seq<char>
    decreases s.len(),
{
    if s.len() > 0 && white_space(s.last()) {
        trim_end(s.drop_last())
    } else {
        s
    }
}

/// The text without the white space around it.
pub open spec fn trimmed(s: Seq<char>) -> Seq<char> {
    trim_end(trim_start(s))
}

/// The text without the white space around it.
pub fn trim(s: &[char]) -> (r: &[char])
    ensures
        r@ == trimmed(s@),
{
    let n: usize = s.len();
    let mut i: usize = 0;
    assert(s@.skip(0) =~= s@);
    while i < n && s[i].is_whitespace()
        invariant
            i <= n,
            n == s@.len(),
            trim_start(s@) == trim_start(s@.skip(i as int)),
        decreases n - i,
    {
        assert(s@.skip(i as int).drop_first() =~= s@.skip(i + 1));
        i = i + 1;
    }
    let ghost rest = s@.skip(i as int);
    assert(trim_start(s@) == rest);
    let mut j: usize = n;
    assert(rest.take(n - i) =~= rest);
    while j > i && s[j - 1].is_whitespace()
        invariant
            i <= j <= n,
            n == s@.len(),
            rest == s@.skip(i as int),
            trim_end(rest) == trim_end(rest.take(j - i)),
        decreases j,
    {
        assert(rest.take(j - i).drop_last() =~= rest.take(j - i - 1));
        assert(rest.take(j - i).last() == s@[j - 1]);
        j = j - 1;
    }
    if j > i {
        assert(rest.take(j - i).last() == s@[j - 1]);
    }
    assert(trim_end(rest) == rest.take(j - i));
    assert(rest.take(j - i) =~= s@.subrange(i as int, j as int));
    vstd::slice::slice_subrange(s, i, j)
}

/// Whether both texts are the same.
pub fn same_text(a: &[char], b: &[char]) -> (r: bool)
    ensures
        r == (a@ == b@),
{
    if a.len() != b.len() {
        return false;
    }
    let mut i: usize = 0;
    while i < a.len()
        invariant
            i <= a@.len() == b@.len(),
            a@.take(i as int) == b@.take(i as int),
        decreases a@.len() - i,
    {
        if a[i] != b[i] {
            return false;
        }
        i = i + 1;
        assert(a@.take(i as int) =~= a@.take(i - 1).push(a@[i - 1]));
        assert(b@.take(i as int) =~= b@.take(i - 1).push(b@[i - 1]));
    }
    assert(a@.take(a@.len() as int) =~= a@);
    assert(b@.take(b@.len() as int) =~= b@);
    true
}

/// Whether `s` begins with `prefix`.
pub open spec fn starts_with(s: Seq<char>, prefix: Seq<char>) -> bool {
    prefix.len() <= s.len() && s.take(prefix.len() as int) == prefix
}

/// What follows `prefix` in `s`; `None` if `s` does not begin with it.
pub fn strip_prefix<'a>(s: &'a [char], prefix: &[char]) -> (r: Option<&'a [char]>)
    ensures
        match r {
            Some(t) => starts_with(s@, prefix@) && t@ == s@.skip(prefix@.len() as int),
            None => !starts_with(s@, prefix@),
        },
{
    if s.len() < prefix.len() {
        return None;
    }
    let head = vstd::slice::slice_subrange(s, 0, prefix.len());
    assert(head@ =~= s@.take(prefix@.len() as int));
    if same_text(head, prefix) {
        let t = vstd::slice::slice_subrange(s, prefix.len(), s.len());
        assert(t@ =~= s@.skip(prefix@.len() as int));
        Some(t)
    } else {
        None
    }
}

/// The position of the first `c` in `s`, or the end.
pub open spec fn find_char(s: Seq<char>, c: char) -> nat
    decreases s.len(),
{
    if s.len() == 0 || s[0] == c {
        0
    } else {
        1 + find_char(s.drop_first(), c)
    }
}

/// `find_char` finds the first one.
pub proof fn lemma_find_char(s: Seq<char>, c: char, i: int)
    requires
        0 <= i <= s.len(),
        forall|j: int| 0 <= j < i ==> s[j] != c,
        i == s.len() || s[i] == c,
    ensures
        find_char(s, c) == i,
    decreases s.len(),
{
    if i > 0 {
        let t = s.drop_first();
        assert forall|j: int| 0 <= j < i - 1 implies t[j] != c by {
            assert(t[j] == s[j + 1]);
        }
        lemma_find_char(t, c, i - 1);
    }
}

/// The position of the first `c` in `s`, or the end.
pub fn find(s: &[char], c: char) -> (i: usize)
    ensures
        i == find_char(s@, c),
        i <= s@.len(),
{
    let mut i: usize = 0;
    while i < s.len() && s[i] != c
        invariant
            i <= s@.len(),
            forall|j: int| 0 <= j < i ==> s@[j] != c,
        decreases s@.len() - i,
    {
        i = i + 1;
    }
    proof {
        lemma_find_char(s@, c, i as int);
    }
    i
}

/// A line whose end is marked, without a carriage return before the mark.
pub open spec fn without_cr(line: Seq<char>) -> Seq<char> {
    if line.len() > 0 && line.last() == '\r' {
        line.drop_last()
    } else {
        line
    }
}

/// The lines of a text. A line ends at a newline, with or without a carriage
/// return before it; the last line need not be ended.
pub open spec fn lines(s: Seq<char>) -> Seq<Seq<char>>
    decreases s.len(),
{
    let i = find_char(s, '\n') as int;
    if s.len() == 0 {
        Seq::empty()
    } else if i >= s.len() {
        seq![s]
    } else {
        seq![without_cr(s.take(i))] + lines(s.skip(i + 1))
    }
}

/// The views of a list of texts.
pub open spec fn texts(v: Seq<Vec<char>>) -> Seq<Seq<char>> {
    Seq::new(v.len(), |i: int| v[i]@)
}

/// The lines of a text.
pub fn lines_of(s: &[char]) -> (r: Vec<Vec<char>>)
    ensures
        texts(r@) == lines(s@),
{
    let mut r: Vec<Vec<char>> = Vec::new();
    let mut at: usize = 0;
    assert(s@.skip(0) =~= s@);
    assert(texts(r@) =~= Seq::<Seq<char>>::empty());
    assert(texts(r@) + lines(s@.skip(0)) =~= lines(s@));
    while at < s.len()
        invariant
            at <= s@.len(),
            texts(r@) + lines(s@.skip(at as int)) == lines(s@),
        decreases s@.len() - at,
    {
        let ghost tail = s@.skip(at as int);
        let ghost before = texts(r@);
        let rest = vstd::slice::slice_subrange(s, at, s.len());
        assert(rest@ =~= tail);
        let i: usize = find(rest, '\n');
        if i >= rest.len() {
            let line = vstd::slice::slice_to_vec(rest);
            r.push(line);
            at = s.len();
            assert(s@.skip(at as int) =~= Seq::<char>::empty());
            assert(lines(s@.skip(at as int)) =~= Seq::<Seq<char>>::empty());
            assert(texts(r@) =~= before + seq![tail]);
            assert(texts(r@) + lines(s@.skip(at as int)) =~= before + lines(tail));
        } else {
            let end: usize = if i > 0 && rest[i - 1] == '\r' {
                i - 1
            } else {
                i
            };
            let line = vstd::slice::slice_to_vec(vstd::slice::slice_subrange(rest, 0, end));
            assert(line@ =~= without_cr(tail.take(i as int)));
            r.push(line);
            let ghost was = at as int;
            at = at + i + 1;
            assert(tail.skip(i + 1) =~= s@.skip(at as int));
            assert(texts(r@) =~= before + seq![without_cr(tail.take(i as int))]);
            assert(texts(r@) + lines(s@.skip(at as int)) =~= before + lines(tail));
        }
    }
    assert(s@.skip(at as int) =~= Seq::<char>::empty());
    assert(texts(r@) + lines(s@.skip(at as int)) =~= texts(r@));
    r
}

/// Whether `s[i..j]` is a word: not empty, without white space, and bounded by
/// white space or the ends of the text.
pub open spec fn is_word(s: Seq<char>, i: int, j: int) -> bool {
    &&& 0 <= i < j <= s.len()
    &&& i == 0 || white_space(s[i - 1])
    &&& j == s.len() || white_space(s[j])
    &&& forall|k: int| i <= k < j ==> !white_space(#[trigger] s[k])
}

/// Whether `word` is one of the words of `s`.
pub open spec fn has_word(s: Seq<char>, word: Seq<char>) -> bool {
    exists|i: int, j: int| #[trigger] is_word(s, i, j) && s.subrange(i, j) == word
}

/// Whether `word` is one of the white-space separated words of `s`.
pub fn contains_word(s: &[char], word: &[char]) -> (r: bool)
    ensures
        r == has_word(s@, word@),
{
    let n: usize = s.len();
    let mut i: usize = 0;
    while i < n
        invariant
            n == s@.len(),
            i <= n,
            i == 0 || i >= n || white_space(s@[i - 1]),
            forall|a: int, b: int| #[trigger] is_word(s@, a, b) && a < i ==> s@.subrange(a, b) != word@,
        decreases n - i,
    {
        if s[i].is_whitespace() {
            assert forall|a: int, b: int| #[trigger] is_word(s@, a, b) && a < i + 1 implies s@.subrange(
                a,
                b,
            ) != word@ by {
                assert(!white_space(s@[a]));
            }
            i = i + 1;
        } else {
            let mut j: usize = i + 1;
            while j < n && !s[j].is_whitespace()
                invariant
                    n == s@.len(),
                    i < j <= n,
                    forall|k: int| i <= k < j ==> !white_space(#[trigger] s@[k]),
                decreases n - j,
            {
                j = j + 1;
            }
            let w = vstd::slice::slice_subrange(s, i, j);
            assert(is_word(s@, i as int, j as int));
            if same_text(w, word) {
                return true;
            }
            let next: usize = if j < n {
                j + 1
            } else {
                n
            };
            assert forall|a: int, b: int| #[trigger] is_word(s@, a, b) && a < next implies s@.subrange(
                a,
                b,
            ) != word@ by {
                if a >= i {
                    if a > i {
                        if a < j {
                            assert(!white_space(s@[a - 1]));
                        } else {
                            assert(a == j);
                            assert(!white_space(s@[a]));
                        }
                    } else {
                        if b < j {
                            assert(!white_space(s@[b]));
                        } else if b > j {
                            assert(!white_space(s@[j as int]));
                        }
                    }
                }
            }
            i = next;
        }
    }
    assert forall|a: int, b: int| #[trigger] is_word(s@, a, b) implies s@.subrange(a, b) != word@ by {
        assert(a < n);
    }
    false
}

} // verus!
