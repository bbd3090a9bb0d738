//! Texts: numbers in digits, white space, lines and words.

use vstd::prelude::*;

verus! {

/// Where a text's part without the white space around it begins and ends.
pub open spec fn trimmed_bounds(s: Seq<char>) -> (int, int) {
    let i = s.len() - crate::text::trim_start(s).len();
    (i, i + crate::text::trimmed(s).len())
}

/// What is left in front is a last part of the text.
proof fn lemma_trim_start(s: Seq<char>)
    ensures
        ({
            let t = crate::text::trim_start(s);
            let i = s.len() - t.len();
            &&& 0 <= i <= s.len()
            &&& t == s.skip(i)
            &&& forall|k: int| 0 <= k < i ==> crate::text::white_space(#[trigger] s[k])
            &&& t.len() > 0 ==> !crate::text::white_space(t[0])
        }),
    decreases s.len(),
{
    if s.len() > 0 && crate::text::white_space(s[0]) {
        let r = s.drop_first();
        lemma_trim_start(r);
        let t = crate::text::trim_start(s);
        let i = s.len() - t.len();
        assert(t =~= s.skip(i));
        assert forall|k: int| 0 <= k < i implies crate::text::white_space(#[trigger] s[k]) by {
            if k > 0 {
                assert(s[k] == r[k - 1]);
            }
        }
    } else {
        assert(s.skip(0) =~= s);
    }
}

/// What is left at the end is a first part of the text.
proof fn lemma_trim_end(s: Seq<char>)
    ensures
        ({
            let t = crate::text::trim_end(s);
            let j = t.len() as int;
            &&& 0 <= j <= s.len()
            &&& t == s.take(j)
            &&& forall|k: int| j <= k < s.len() ==> crate::text::white_space(#[trigger] s[k])
            &&& t.len() > 0 ==> !crate::text::white_space(t.last())
        }),
    decreases s.len(),
{
    if s.len() > 0 && crate::text::white_space(s.last()) {
        let r = s.drop_last();
        lemma_trim_end(r);
        let t = crate::text::trim_end(s);
        let j = t.len() as int;
        assert(t =~= s.take(j));
        assert forall|k: int| j <= k < s.len() implies crate::text::white_space(
            #[trigger] s[k],
        ) by {
            if k < r.len() {
                assert(s[k] == r[k]);
            }
        }
    } else {
        assert(s.take(s.len() as int) =~= s);
    }
}

/// What is left of a text without the white space around it is a part of it.
pub proof fn lemma_trimmed_part(s: Seq<char>)
    ensures
        ({
            let (i, j) = trimmed_bounds(s);
            let t = crate::text::trimmed(s);
            &&& 0 <= i <= j <= s.len()
            &&& t == s.subrange(i, j)
            &&& forall|k: int| 0 <= k < i ==> crate::text::white_space(#[trigger] s[k])
            &&& forall|k: int| j <= k < s.len() ==> crate::text::white_space(#[trigger] s[k])
            &&& t.len() > 0 ==> !crate::text::white_space(t[0]) && !crate::text::white_space(
                t.last(),
            )
        }),
{
    let m = crate::text::trim_start(s);
    lemma_trim_start(s);
    lemma_trim_end(m);
    let (i, j) = trimmed_bounds(s);
    let t = crate::text::trimmed(s);
    assert(t =~= s.subrange(i, j));
    assert forall|k: int| j <= k < s.len() implies crate::text::white_space(#[trigger] s[k]) by {
        assert(s[k] == m[k - i]);
    }
    if t.len() > 0 {
        assert(t[0] == m[0]);
    }
}

/// White space around a text goes; the text, if it neither begins nor ends with any,
/// is what is left.
pub proof fn lemma_trimmed(front: Seq<char>, core: Seq<char>, back: Seq<char>)
    requires
        core.len() > 0,
        !crate::text::white_space(core[0]),
        !crate::text::white_space(core.last()),
        forall|i: int| 0 <= i < front.len() ==> crate::text::white_space(#[trigger] front[i]),
        forall|i: int| 0 <= i < back.len() ==> crate::text::white_space(#[trigger] back[i]),
    ensures
        crate::text::trimmed(front + core + back) == core,
{
    let s = front + core + back;
    lemma_trimmed_part(s);
    let (i, j) = trimmed_bounds(s);
    let t = crate::text::trimmed(s);
    let a = front.len() as int;
    let b = a + core.len();
    assert(s[a] == core[0]);
    assert(s[b - 1] == core.last());
    assert(i <= a && b <= j);
    assert(t.len() == j - i);
    if i < a {
        assert(t[0] == s[i]);
        assert(s[i] == front[i]);
    }
    if j > b {
        assert(t.last() == s[j - 1]);
        assert(s[j - 1] == back[j - 1 - b]);
    }
    assert(t =~= core);
}

/// Trimming takes away white space at both ends, all of it, and nothing else.
pub proof fn trimming_takes_white_space_only(
    s: &[char],
    r: &[char],
    front: Seq<char>,
    core: Seq<char>,
    back: Seq<char>,
)
    requires
        call_ensures(crate::text::trim, (s,), r),
        s@ == front + core + back,
        forall|i: int| 0 <= i < front.len() ==> crate::text::white_space(#[trigger] front[i]),
        forall|i: int| 0 <= i < back.len() ==> crate::text::white_space(#[trigger] back[i]),
        core.len() > 0 ==> !crate::text::white_space(core[0]) && !crate::text::white_space(
            core.last(),
        ),
    ensures
        r@ == core,
{
    if core.len() > 0 {
        lemma_trimmed(front, core, back);
    } else {
        lemma_trimmed_part(s@);
        let (i, j) = trimmed_bounds(s@);
        if r@.len() > 0 {
            assert(r@[0] == s@[i]);
            if i < front.len() {
                assert(s@[i] == front[i]);
            } else {
                assert(s@[i] == back[i - front.len()]);
            }
        }
        assert(r@ =~= core);
    }
}

/// A number is written in digits that read as that number, without a zero in front
/// unless it is zero; a negative one behind a minus sign.
pub proof fn numbers_are_written_in_digits(n: u64, s: String, m: i32, t: String)
    requires
        call_ensures(crate::text::decimal_string, (n,), s),
        call_ensures(crate::text::signed_string, (m,), t),
    ensures
        crate::text::is_digits(s@),
        crate::text::digits_value(s@) == n,
        n > 0 ==> s@[0] != '0',
        n == 0 ==> s@.len() == 1,
        m >= 0 ==> crate::text::is_digits(t@) && crate::text::digits_value(t@) == m,
        m < 0 ==> t@[0] == '-' && crate::text::is_digits(t@.skip(1)) && crate::text::digits_value(
            t@.skip(1),
        ) == -m,
{
    crate::text::decimal_reads_back(n as nat);
    lemma_no_leading_zero(n as nat);
    if m >= 0 {
        crate::text::decimal_reads_back(m as nat);
    } else {
        crate::text::decimal_reads_back((-m) as nat);
        assert(t@.skip(1) =~= crate::text::decimal((-m) as nat));
    }
}

/// A positive number begins with no zero.
proof fn lemma_no_leading_zero(n: nat)
    ensures
        crate::text::decimal(n).len() > 0,
        n > 0 ==> crate::text::decimal(n)[0] != '0',
    decreases n,
{
    if n >= 10 {
        lemma_no_leading_zero(n / 10);
        assert(crate::text::decimal(n)[0] == crate::text::decimal(n / 10)[0]);
    }
}

/// A text and its characters are the same, and two texts are the same if their
/// characters are.
pub proof fn texts_are_their_characters(
    s: &str,
    v: Vec<char>,
    c: &[char],
    t: String,
    d: &[char],
    same: bool,
)
    requires
        call_ensures(crate::text::chars_of, (s,), v),
        call_ensures(crate::text::string_of, (c,), t),
        call_ensures(crate::text::same_text, (c, d), same),
    ensures
        v@ == s@,
        t@ == c@,
        same <==> c@ == d@,
{
}

/// A prefix is taken off if and only if it is there.
pub proof fn prefixes_are_taken_off(
    s: &[char],
    prefix: &[char],
    r: Option<&[char]>,
    rest: Seq<char>,
)
    requires
        call_ensures(crate::text::strip_prefix, (s, prefix), r),
    ensures
        s@ == prefix@ + rest ==> r is Some && r->0@ == rest,
        r matches Some(t) ==> s@ == prefix@ + t@,
{
    let k = prefix@.len() as int;
    if s@ == prefix@ + rest {
        assert(s@.take(k) =~= prefix@);
        assert(s@.skip(k) =~= rest);
    }
    if let Some(t) = r {
        assert(s@ =~= prefix@ + t@);
    }
}

/// A character is found where it first stands, or behind the end.
pub proof fn characters_are_found_first(s: &[char], c: char, i: usize)
    requires
        call_ensures(crate::text::find, (s, c), i),
    ensures
        i <= s@.len(),
        i < s@.len() ==> s@[i as int] == c,
        forall|j: int| 0 <= j < i ==> s@[j] != c,
{
    lemma_found(s@, c);
}

/// Where a character first stands.
pub proof fn lemma_found(s: Seq<char>, c: char)
    ensures
        ({
            let i = crate::text::find_char(s, c) as int;
            &&& i <= s.len()
            &&& i < s.len() ==> s[i] == c
            &&& forall|j: int| 0 <= j < i ==> s[j] != c
        }),
    decreases s.len(),
{
    if s.len() > 0 && s[0] != c {
        let t = s.drop_first();
        lemma_found(t, c);
        let i = crate::text::find_char(s, c) as int;
        assert forall|j: int| 0 <= j < i implies s[j] != c by {
            if j > 0 {
                assert(s[j] == t[j - 1]);
            }
        }
    }
}

/// The text of these lines, each ended by a newline.
pub open spec fn unlined(ls: Seq<Seq<char>>) -> Seq<char>
    decreases ls.len(),
{
    if ls.len() == 0 {
        Seq::empty()
    } else {
        ls[0] + seq!['\n'] + unlined(ls.drop_first())
    }
}

/// A text is split at its newlines: its lines are what was put together, be the last
/// one ended or not.
pub proof fn lines_are_split_at_newlines(
    s: &[char],
    r: Vec<Vec<char>>,
    ls: Seq<Seq<char>>,
    last: Seq<char>,
)
    requires
        call_ensures(crate::text::lines_of, (s,), r),
        s@ == unlined(ls) + last,
        forall|i: int| 0 <= i < ls.len() ==> plain_line(#[trigger] ls[i]),
        plain_line(last),
    ensures
        r@.len() == ls.len() + if last.len() > 0 {
            1int
        } else {
            0
        },
        forall|i: int| 0 <= i < ls.len() ==> (#[trigger] r@[i])@ == ls[i],
        last.len() > 0 ==> r@.last()@ == last,
{
    lemma_lines(ls, last);
    let t = crate::text::texts(r@);
    assert(t.len() == r@.len());
    assert forall|i: int| 0 <= i < ls.len() implies (#[trigger] r@[i])@ == ls[i] by {
        assert(t[i] == r@[i]@);
    }
    if last.len() > 0 {
        assert(t[r@.len() - 1] == r@[r@.len() - 1]@);
    }
}

/// A line that ends in a carriage return and a newline loses both.
pub proof fn carriage_returns_go(s: &[char], r: Vec<Vec<char>>, line: Seq<char>, rest: Seq<char>)
    requires
        call_ensures(crate::text::lines_of, (s,), r),
        s@ == line + seq!['\r', '\n'] + rest,
        forall|i: int| 0 <= i < line.len() ==> #[trigger] line[i] != '\n',
    ensures
        r@.len() > 0,
        r@[0]@ == line,
{
    let k = line.len() + 1;
    assert forall|j: int| 0 <= j < k implies s@[j] != '\n' by {
        if j < line.len() {
            assert(s@[j] == line[j]);
        }
    }
    crate::text::lemma_find_char(s@, '\n', k as int);
    let full = s@.take(k as int);
    assert(full.last() == '\r');
    assert(full.drop_last() =~= line);
    let t = crate::text::texts(r@);
    assert(t.len() == r@.len());
    assert(t[0] == r@[0]@);
}

/// Whether this is one line: no newline in it, and no carriage return at its end.
pub open spec fn plain_line(line: Seq<char>) -> bool {
    &&& forall|i: int| 0 <= i < line.len() ==> #[trigger] line[i] != '\n'
    &&& line.len() > 0 ==> line.last() != '\r'
}

/// The lines of a text that is put together from lines.
pub proof fn lemma_lines(ls: Seq<Seq<char>>, last: Seq<char>)
    requires
        forall|i: int| 0 <= i < ls.len() ==> plain_line(#[trigger] ls[i]),
        plain_line(last),
    ensures
        crate::text::lines(unlined(ls) + last) == if last.len() > 0 {
            ls.push(last)
        } else {
            ls
        },
    decreases ls.len(),
{
    let s = unlined(ls) + last;
    if ls.len() == 0 {
        assert(s =~= last);
        if last.len() > 0 {
            crate::text::lemma_find_char(s, '\n', s.len() as int);
            assert(crate::text::lines(s) =~= ls.push(last));
        } else {
            assert(crate::text::lines(s) =~= ls);
        }
    } else {
        let first = ls[0];
        let rest = ls.drop_first();
        assert(plain_line(first));
        assert forall|i: int| 0 <= i < rest.len() implies plain_line(#[trigger] rest[i]) by {
            assert(rest[i] == ls[i + 1]);
        }
        lemma_lines(rest, last);
        let k = first.len() as int;
        assert(s[k] == '\n');
        assert forall|j: int| 0 <= j < k implies s[j] != '\n' by {
            assert(s[j] == first[j]);
        }
        crate::text::lemma_find_char(s, '\n', k);
        assert(s.take(k) =~= first);
        assert(s.skip(k + 1) =~= unlined(rest) + last);
        let tail = crate::text::lines(unlined(rest) + last);
        assert(crate::text::lines(s) =~= seq![first] + tail);
        if last.len() > 0 {
            assert(seq![first] + rest.push(last) =~= ls.push(last));
        } else {
            assert(seq![first] + rest =~= ls);
        }
    }
}

/// A word is found where it stands between white space or the ends of the text, and
/// only there.
pub proof fn words_are_found(
    s: &[char],
    word: &[char],
    r: bool,
    front: Seq<char>,
    back: Seq<char>,
)
    requires
        call_ensures(crate::text::contains_word, (s, word), r),
        word@.len() > 0,
        forall|i: int| 0 <= i < word@.len() ==> !crate::text::white_space(#[trigger] word@[i]),
    ensures
        s@ == front + word@ + back && (front.len() == 0 || crate::text::white_space(front.last()))
            && (back.len() == 0 || crate::text::white_space(back[0])) ==> r,
        r ==> exists|i: int|
            0 <= i <= s@.len() - word@.len() && #[trigger] s@.subrange(i, i + word@.len()) == word@
                && (i == 0 || crate::text::white_space(s@[i - 1])) && (i + word@.len() == s@.len()
                || crate::text::white_space(s@[i + word@.len()])),
{
    let n = word@.len() as int;
    if s@ == front + word@ + back && (front.len() == 0 || crate::text::white_space(front.last()))
        && (back.len() == 0 || crate::text::white_space(back[0])) {
        let i = front.len() as int;
        assert(s@.subrange(i, i + n) =~= word@);
        if i > 0 {
            assert(s@[i - 1] == front.last());
        }
        if back.len() > 0 {
            assert(s@[i + n] == back[0]);
        }
        assert forall|k: int| i <= k < i + n implies !crate::text::white_space(#[trigger] s@[k]) by {
            assert(s@[k] == word@[k - i]);
        }
        assert(crate::text::is_word(s@, i, i + n));
    }
    if r {
        let (i, j) = choose|i: int, j: int| #[trigger]
            crate::text::is_word(s@, i, j) && s@.subrange(i, j) == word@;
        assert(j == i + n);
        assert(s@.subrange(i, i + n) == word@);
    }
}

} // verus!
