//! Line handling for help text.
use vstd::prelude::*;

verus! {

/// A line without the carriage return that ends it, if any.
pub open spec fn strip_cr(l: Seq<char>) -> Seq<char> {
    if l.len() > 0 && l.last() == '\r' {
        l.drop_last()
    } else {
        l
    }
}

/// The lines of `s`, where `cur` is the part of the current line read so far:
/// a line ends at `\n`, or at `\r\n`, and the last line needs no ending.
pub open spec fn lines_from(s: Seq<char>, cur: Seq<char>) -> Seq<Seq<char>>
    decreases s.len(),
{
    if s.len() == 0 {
        if cur.len() == 0 {
            Seq::empty()
        } else {
            seq![cur]
        }
    } else if s[0] == '\n' {
        seq![strip_cr(cur)] + lines_from(s.drop_first(), Seq::empty())
    } else {
        lines_from(s.drop_first(), cur.push(s[0]))
    }
}

/// The lines of a string, without their endings.
pub open spec fn lines_of(s: Seq<char>) -> Seq<Seq<char>> {
    lines_from(s, Seq::empty())
}

/// The characters with the Unicode property `White_Space`.
pub open spec fn is_white(c: char) -> bool {
    ||| '\u{9}' <= c <= '\u{d}'
    ||| c == ' '
    ||| c == '\u{85}'
    ||| c == '\u{a0}'
    ||| c == '\u{1680}'
    ||| '\u{2000}' <= c <= '\u{200a}'
    ||| c == '\u{2028}'
    ||| c == '\u{2029}'
    ||| c == '\u{202f}'
    ||| c == '\u{205f}'
    ||| c == '\u{3000}'
}

/// The upper-case form of a string as `str::to_uppercase` maps it.
pub uninterp spec fn upper_of(s: Seq<char>) -> Seq<char>;

/// Relies on `str::lines`: lines end at `\n` or `\r\n`, endings are not
/// included, and the final line ending is optional.
#[verifier::external_body]
fn text_lines(s: &str) -> (r: Vec<String>)
    ensures
        strings_view(r@) == lines_of(s@),
{
    s.lines().map(|l| l.to_owned()).collect()
}

/// Relies on `char::is_whitespace`: true of the characters with the Unicode
/// property `White_Space`.
#[verifier::external_body]
fn white(c: char) -> (r: bool)
    ensures
        r == is_white(c),
{
    c.is_whitespace()
}

/// Relies on `str::to_uppercase`; the result depends on the characters alone.
#[verifier::external_body]
pub(crate) fn uppercase(s: &str) -> (r: String)
    ensures
        r@ == upper_of(s@),
{
    s.to_uppercase()
}

/// Strings as mathematical values.
pub open spec fn strings_view(v: Seq<String>) -> Seq<Seq<char>> {
    v.map_values(|l: String| l@)
}

/// A string with its leading whitespace removed.
pub open spec fn trim_start(s: Seq<char>) -> Seq<char>
    decreases s.len(),
{
    if s.len() > 0 && is_white(s[0]) {
        trim_start(s.drop_first())
    } else {
        s
    }
}

/// A string with its trailing whitespace removed.
pub open spec fn trim_end(s: Seq<char>) -> Seq<char>
    decreases s.len(),
{
    if s.len() > 0 && is_white(s.last()) {
        trim_end(s.drop_last())
    } else {
        s
    }
}

/// A string with whitespace removed at both ends.
pub open spec fn trimmed(s: Seq<char>) -> Seq<char> {
    trim_end(trim_start(s))
}

/// Relies on `str::trim`: leading and trailing characters for which
/// `char::is_whitespace` holds are removed.
#[verifier::external_body]
fn trim(s: &str) -> (r: &str)
    ensures
        r@ == trimmed(s@),
{
    s.trim()
}

/// Each line trimmed.
pub open spec fn trim_all(ls: Seq<Seq<char>>) -> Seq<Seq<char>> {
    ls.map_values(|l: Seq<char>| trimmed(l))
}

/// A line that is empty or holds whitespace only.
pub open spec fn is_blank(l: Seq<char>) -> bool {
    forall|i: int| 0 <= i < l.len() ==> is_white(#[trigger] l[i])
}

/// The lines with the blank ones at the front removed.
pub open spec fn drop_blank_front(ls: Seq<Seq<char>>) -> Seq<Seq<char>>
    decreases ls.len(),
{
    if ls.len() > 0 && is_blank(ls[0]) {
        drop_blank_front(ls.drop_first())
    } else {
        ls
    }
}

/// The lines with the blank ones at the back removed.
pub open spec fn drop_blank_back(ls: Seq<Seq<char>>) -> Seq<Seq<char>>
    decreases ls.len(),
{
    if ls.len() > 0 && is_blank(ls.last()) {
        drop_blank_back(ls.drop_last())
    } else {
        ls
    }
}

/// The lines of a text without blank lines at either end, each trimmed.
pub open spec fn stripped_lines(text: Seq<char>) -> Seq<Seq<char>> {
    trim_all(drop_blank_front(drop_blank_back(lines_of(text))))
}

fn line_is_blank(l: &str) -> (r: bool)
    ensures
        r == is_blank(l@),
{
    let n = l.unicode_len();
    let mut i: usize = 0;
    while i < n
        invariant
            n == l@.len(),
            0 <= i <= n,
            forall|k: int| 0 <= k < i ==> is_white(#[trigger] l@[k]),
        decreases n - i,
    {
        if !white(l.get_char(i)) {
            return false;
        }
        i = i + 1;
    }
    true
}

/// The lines of a text without blank lines at either end, each with
/// whitespace trimmed at both ends.
pub fn trim_and_strip_lines(text: &str) -> (r: Vec<String>)
    ensures
        strings_view(r@) == stripped_lines(text@),
{
    let lines = text_lines(text);
    let ghost ls = lines_of(text@);
    assert(forall|k: int| 0 <= k < lines.len() ==> #[trigger] lines@[k]@ == ls[k]);
    let mut e: usize = lines.len();
    assert(ls.subrange(0, e as int) =~= ls);
    while e > 0 && line_is_blank(lines[e - 1].as_str())
        invariant
            0 <= e <= lines.len(),
            ls.len() == lines.len(),
            forall|k: int| 0 <= k < lines.len() ==> #[trigger] lines@[k]@ == ls[k],
            drop_blank_back(ls) == drop_blank_back(ls.subrange(0, e as int)),
        decreases e,
    {
        assert(ls.subrange(0, e as int).drop_last() =~= ls.subrange(0, e - 1));
        e = e - 1;
    }
    let ghost back = ls.subrange(0, e as int);
    assert(drop_blank_back(ls) == back);
    let mut b: usize = 0;
    assert(back.subrange(0, e as int) =~= back);
    while b < e && line_is_blank(lines[b].as_str())
        invariant
            0 <= b <= e <= lines.len(),
            ls.len() == lines.len(),
            back == ls.subrange(0, e as int),
            forall|k: int| 0 <= k < lines.len() ==> #[trigger] lines@[k]@ == ls[k],
            drop_blank_front(back) == drop_blank_front(back.subrange(b as int, e as int)),
        decreases e - b,
    {
        assert(back.subrange(b as int, e as int).drop_first() =~= back.subrange(b + 1, e as int));
        b = b + 1;
    }
    let ghost kept = back.subrange(b as int, e as int);
    assert(drop_blank_front(back) == kept);
    let mut r: Vec<String> = Vec::new();
    let mut k = b;
    while k < e
        invariant
            b <= k <= e <= lines.len(),
            ls.len() == lines.len(),
            kept == ls.subrange(b as int, e as int),
            forall|j: int| 0 <= j < lines.len() ==> #[trigger] lines@[j]@ == ls[j],
            strings_view(r@) == trim_all(kept.subrange(0, k - b)),
        decreases e - k,
    {
        let line = trim(lines[k].as_str()).to_owned();
        let ghost r0 = r@;
        assert(line@ == trimmed(ls[k as int]));
        assert(kept[k - b] == ls[k as int]);
        r.push(line);
        assert(r@ == r0.push(line));
        assert(strings_view(r0).len() == k - b);
        assert forall|j: int| 0 <= j < k + 1 - b implies #[trigger] strings_view(r@)[j]
            == trim_all(kept.subrange(0, k + 1 - b))[j] by {
            assert(strings_view(r@)[j] == r@[j]@);
            assert(trim_all(kept.subrange(0, k + 1 - b))[j] == trimmed(kept[j]));
            if j < k - b {
                assert(r@[j] == r0[j]);
                assert(strings_view(r0)[j] == r0[j]@);
                assert(trim_all(kept.subrange(0, k - b))[j] == trimmed(kept[j]));
            }
        }
        assert(strings_view(r@) =~= trim_all(kept.subrange(0, k + 1 - b)));
        k = k + 1;
    }
    assert(kept.subrange(0, e - b) =~= kept);
    r
}

} // verus!
