//! Character-level helpers on strings: equality, trimming and splitting.

use vstd::prelude::*;
use vstd::string::*;

verus! {

/// The characters that carry the Unicode `White_Space` property.
pub open spec fn is_white_spec(c: char) -> bool {
    ||| ('\u{9}' <= c && c <= '\u{d}')
    ||| c == ' '
    ||| c == '\u{85}'
    ||| c == '\u{a0}'
    ||| c == '\u{1680}'
    ||| ('\u{2000}' <= c && c <= '\u{200a}')
    ||| c == '\u{2028}'
    ||| c == '\u{2029}'
    ||| c == '\u{202f}'
    ||| c == '\u{205f}'
    ||| c == '\u{3000}'
}

/// Whether `s` holds a character that is not white space.
pub open spec fn has_solid(s: Seq<char>) -> bool {
    exists|i: int| 0 <= i < s.len() && !is_white_spec(s[i])
}

/// Index of the first character of `s` that is not white space.
pub open spec fn solid_start(s: Seq<char>) -> int {
    choose|i: int|
        0 <= i < s.len() && !is_white_spec(s[i]) && forall|j: int|
            0 <= j < i ==> is_white_spec(#[trigger] s[j])
}

/// Index just past the last character of `s` that is not white space.
pub open spec fn solid_end(s: Seq<char>) -> int {
    1 + choose|k: int|
        0 <= k < s.len() && !is_white_spec(s[k]) && forall|j: int|
            k < j < s.len() ==> is_white_spec(#[trigger] s[j])
}

/// `s` without its leading and trailing white space.
pub open spec fn trimmed(s: Seq<char>) -> Seq<char> {
    if has_solid(s) {
        s.subrange(solid_start(s), solid_end(s))
    } else {
        Seq::empty()
    }
}

/// The part of `s` before its first space, and the part after it, if `s` has one.
pub open spec fn split_at_space(s: Seq<char>) -> (Seq<char>, Option<Seq<char>>) {
    if exists|i: int| 0 <= i < s.len() && s[i] == ' ' {
        let i = choose|i: int|
            0 <= i < s.len() && s[i] == ' ' && forall|j: int| 0 <= j < i ==> s[j] != ' ';
        (s.subrange(0, i), Some(s.subrange(i + 1, s.len() as int)))
    } else {
        (s, None)
    }
}

pub fn is_white(c: char) -> (r: bool)
    ensures
        r == is_white_spec(c),
{
    ('\u{9}' <= c && c <= '\u{d}') || c == ' ' || c == '\u{85}' || c == '\u{a0}' || c
        == '\u{1680}' || ('\u{2000}' <= c && c <= '\u{200a}') || c == '\u{2028}' || c
        == '\u{2029}' || c == '\u{202f}' || c == '\u{205f}' || c == '\u{3000}'
}

/// Whether two strings hold the same characters.
pub fn same_text(a: &str, b: &str) -> (r: bool)
    ensures
        r == (a@ == b@),
{
    let n = a.unicode_len();
    if n != b.unicode_len() {
        return false;
    }
    let mut i: usize = 0;
    while i < n
        invariant
            n == a@.len(),
            n == b@.len(),
            i <= n,
            forall|j: int| 0 <= j < i ==> a@[j] == b@[j],
        decreases n - i,
    {
        if a.get_char(i) != b.get_char(i) {
            return false;
        }
        i = i + 1;
    }
    assert(a@ =~= b@);
    true
}

/// `s` without its leading and trailing white space.
pub fn trim(s: &str) -> (r: &str)
    ensures
        r@ == trimmed(s@),
{
    let n = s.unicode_len();
    let mut a: usize = 0;
    while a < n && is_white(s.get_char(a))
        invariant
            n == s@.len(),
            a <= n,
            forall|j: int| 0 <= j < a ==> is_white_spec(#[trigger] s@[j]),
        decreases n - a,
    {
        a = a + 1;
    }
    if a == n {
        return s.substring_char(n, n);
    }
    let mut b: usize = n;
    while b > a + 1 && is_white(s.get_char(b - 1))
        invariant
            n == s@.len(),
            a < b <= n,
            !is_white_spec(s@[a as int]),
            forall|j: int| b <= j < n ==> is_white_spec(#[trigger] s@[j]),
        decreases b,
    {
        b = b - 1;
    }
    proof {
        let ss = s@;
        assert(has_solid(ss));
        let st = solid_start(ss);
        let en = solid_end(ss);
        assert(0 <= st < ss.len() && !is_white_spec(ss[st]));
        if st < a {
            assert(is_white_spec(ss[st]));
        }
        if st > a {
            assert(is_white_spec(ss[a as int]));
        }
        assert(!is_white_spec(ss[b - 1]));
        let k = en - 1;
        assert(0 <= k < ss.len() && !is_white_spec(ss[k]) && forall|j: int|
            k < j < ss.len() ==> is_white_spec(#[trigger] ss[j]));
        if en > b {
            assert(is_white_spec(ss[en - 1]));
        }
        if en < b {
            assert(is_white_spec(ss[b - 1]));
        }
    }
    s.substring_char(a, b)
}

/// The part of `s` before its first space, and the part after it, if `s` has one.
pub fn split_at_first_space(s: &str) -> (r: (&str, Option<&str>))
    ensures
        r.0@ == split_at_space(s@).0,
        match r.1 {
            Some(t) => split_at_space(s@).1 == Some(t@),
            None => split_at_space(s@).1 is None,
        },
{
    let n = s.unicode_len();
    let mut i: usize = 0;
    while i < n && s.get_char(i) != ' '
        invariant
            n == s@.len(),
            i <= n,
            forall|j: int| 0 <= j < i ==> #[trigger] s@[j] != ' ',
        decreases n - i,
    {
        i = i + 1;
    }
    if i == n {
        assert(s@.subrange(0, n as int) =~= s@);
        return (s.substring_char(0, n), None);
    }
    proof {
        let ss = s@;
        let k = choose|k: int|
            0 <= k < ss.len() && ss[k] == ' ' && forall|j: int| 0 <= j < k ==> ss[j] != ' ';
        assert(0 <= k < ss.len() && ss[k] == ' ' && forall|j: int| 0 <= j < k ==> ss[j] != ' ');
        if k < i {
            assert(ss[k] != ' ');
        }
        if k > i {
            assert(ss[i as int] != ' ');
        }
    }
    (s.substring_char(0, i), Some(s.substring_char(i + 1, n)))
}

}
