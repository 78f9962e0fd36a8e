//! The loader for the textual threat-dataset format.
//!
//! The format is line-oriented: a line whose first character is `#`
//! introduces a reference URL (the text after `#`, trimmed) that applies to
//! the lines below it; every other line that is not blank is a trimmed
//! extension identifier associated with the most recently seen URL. Blank
//! lines and lines holding only whitespace are ignored, and both `\n` and
//! `\r` line endings are tolerated. Whitespace means the Unicode White_Space
//! code points, as Rust's `char::is_whitespace` has them.

use crate::dataset::ThreatDataset;
use vstd::prelude::*;
use vstd::string::StrSliceExecFns;

verus! {

/// A line-breaking character; both endings are tolerated.
pub open spec fn is_break(c: char) -> bool {
    c == '\n' || c == '\r'
}

/// Whitespace as Rust's `char::is_whitespace` defines it: the Unicode
/// White_Space code points. Trimmed from identifiers and URLs, and a line
/// holding nothing else is ignored.
pub open spec fn is_space(c: char) -> bool {
    ||| c == '\u{9}'
    ||| c == '\u{A}'
    ||| c == '\u{B}'
    ||| c == '\u{C}'
    ||| c == '\u{D}'
    ||| c == ' '
    ||| c == '\u{85}'
    ||| c == '\u{A0}'
    ||| c == '\u{1680}'
    ||| c == '\u{2000}'
    ||| c == '\u{2001}'
    ||| c == '\u{2002}'
    ||| c == '\u{2003}'
    ||| c == '\u{2004}'
    ||| c == '\u{2005}'
    ||| c == '\u{2006}'
    ||| c == '\u{2007}'
    ||| c == '\u{2008}'
    ||| c == '\u{2009}'
    ||| c == '\u{200A}'
    ||| c == '\u{2028}'
    ||| c == '\u{2029}'
    ||| c == '\u{202F}'
    ||| c == '\u{205F}'
    ||| c == '\u{3000}'
}

/// The length of the first line of `s`: the index of its first breaking
/// character, or the length of `s` if it has none.
pub open spec fn first_break(s: Seq<char>) -> int
    decreases s.len(),
{
    if s.len() == 0 {
        0
    } else if is_break(s[0]) {
        0
    } else {
        1 + first_break(s.drop_first())
    }
}

/// `s` without its leading whitespace.
pub open spec fn trim_left(s: Seq<char>) -> Seq<char>
    decreases s.len(),
{
    if s.len() > 0 && is_space(s[0]) {
        trim_left(s.drop_first())
    } else {
        s
    }
}

/// `s` without its trailing whitespace.
pub open spec fn trim_right(s: Seq<char>) -> Seq<char>
    decreases s.len(),
{
    if s.len() > 0 && is_space(s.last()) {
        trim_right(s.drop_last())
    } else {
        s
    }
}

/// `s` without leading and trailing whitespace.
pub open spec fn trim(s: Seq<char>) -> Seq<char> {
    trim_right(trim_left(s))
}

/// The associations made by the rest of a dataset text `s`, where `cur` is
/// the most recently seen reference URL and `acc` holds the associations
/// made so far. Inserting in text order makes a later association win.
pub open spec fn parse_from(
    s: Seq<char>,
    cur: Seq<char>,
    acc: Map<Seq<char>, Seq<char>>,
) -> Map<Seq<char>, Seq<char>>
    decreases s.len(),
    via parse_from_decreases
{
    if s.len() == 0 {
        acc
    } else {
        let e = first_break(s);
        let line = s.subrange(0, e);
        let rest = if e < s.len() {
            s.subrange(e + 1, s.len() as int)
        } else {
            Seq::empty()
        };
        if line.len() > 0 && line[0] == '#' {
            parse_from(rest, trim(line.subrange(1, line.len() as int)), acc)
        } else if trim(line).len() == 0 {
            parse_from(rest, cur, acc)
        } else {
            parse_from(rest, cur, acc.insert(trim(line), cur))
        }
    }
}

#[via_fn]
proof fn parse_from_decreases(s: Seq<char>, cur: Seq<char>, acc: Map<Seq<char>, Seq<char>>) {
    lemma_first_break(s);
}

/// The mapping described by a whole dataset text.
pub open spec fn parse_dataset(s: Seq<char>) -> Map<Seq<char>, Seq<char>> {
    parse_from(s, Seq::empty(), Map::empty())
}

/// The first break index is within bounds, everything before it is ordinary
/// text, and when it is within `s` it is a breaking character.
pub proof fn lemma_first_break(s: Seq<char>)
    ensures
        0 <= first_break(s) <= s.len(),
        forall|j: int| 0 <= j < first_break(s) ==> !is_break(s[j]),
        first_break(s) < s.len() ==> is_break(s[first_break(s)]),
    decreases s.len(),
{
    if s.len() > 0 && !is_break(s[0]) {
        lemma_first_break(s.drop_first());
        assert forall|j: int| 0 <= j < first_break(s) implies !is_break(s[j]) by {
            if j > 0 {
                assert(s.drop_first()[j - 1] == s[j]);
            }
        }
    }
}

/// Conversely, an index with no break before it that sits on a break (or at
/// the end) is the first break index.
proof fn lemma_first_break_at(s: Seq<char>, k: int)
    requires
        0 <= k <= s.len(),
        forall|j: int| 0 <= j < k ==> !is_break(s[j]),
        k < s.len() ==> is_break(s[k]),
    ensures
        first_break(s) == k,
    decreases s.len(),
{
    if s.len() > 0 && !is_break(s[0]) {
        lemma_first_break_at(s.drop_first(), k - 1);
    }
}

proof fn lemma_trim_left_at(s: Seq<char>, a: int)
    requires
        0 <= a <= s.len(),
        forall|k: int| 0 <= k < a ==> is_space(s[k]),
        a < s.len() ==> !is_space(s[a]),
    ensures
        trim_left(s) == s.subrange(a, s.len() as int),
    decreases s.len(),
{
    if a == 0 {
        assert(trim_left(s) =~= s.subrange(0, s.len() as int));
    } else {
        lemma_trim_left_at(s.drop_first(), a - 1);
        assert(s.drop_first().subrange(a - 1, s.drop_first().len() as int) =~= s.subrange(
            a,
            s.len() as int,
        ));
    }
}

proof fn lemma_trim_right_at(s: Seq<char>, b: int)
    requires
        0 <= b <= s.len(),
        forall|k: int| b <= k < s.len() ==> is_space(s[k]),
        b > 0 ==> !is_space(s[b - 1]),
    ensures
        trim_right(s) == s.subrange(0, b),
    decreases s.len(),
{
    if b == s.len() {
        assert(trim_right(s) =~= s.subrange(0, b));
    } else {
        lemma_trim_right_at(s.drop_last(), b);
        assert(s.drop_last().subrange(0, b) =~= s.subrange(0, b));
    }
}

proof fn lemma_trim_all_space(s: Seq<char>)
    requires
        forall|k: int| 0 <= k < s.len() ==> is_space(s[k]),
    ensures
        trim(s) == Seq::<char>::empty(),
    decreases s.len(),
{
    if s.len() > 0 {
        lemma_trim_all_space(s.drop_first());
    } else {
        assert(trim_left(s) =~= Seq::<char>::empty());
    }
}

/// An interior subrange free of whitespace at both ends is exactly the
/// trimmed line when everything outside it is whitespace.
proof fn lemma_trim_bounds(s: Seq<char>, a: int, b: int)
    requires
        0 <= a <= b <= s.len(),
        forall|k: int| 0 <= k < a ==> is_space(s[k]),
        forall|k: int| b <= k < s.len() ==> is_space(s[k]),
        a < b ==> !is_space(s[a]) && !is_space(s[b - 1]),
    ensures
        trim(s) == s.subrange(a, b),
{
    if a == b {
        lemma_trim_all_space(s);
        assert(s.subrange(a, b) =~= Seq::<char>::empty());
    } else {
        lemma_trim_left_at(s, a);
        let t = s.subrange(a, s.len() as int);
        lemma_trim_right_at(t, b - a);
        assert(t.subrange(0, b - a) =~= s.subrange(a, b));
    }
}

/// A line holding only whitespace is ignored: parsing past it changes
/// neither the current URL nor the associations made so far.
pub proof fn lemma_blank_line_ignored(
    line: Seq<char>,
    rest: Seq<char>,
    cur: Seq<char>,
    acc: Map<Seq<char>, Seq<char>>,
)
    requires
        forall|k: int| 0 <= k < line.len() ==> is_space(line[k]) && !is_break(line[k]),
    ensures
        parse_from(line + seq!['\n'] + rest, cur, acc) == parse_from(rest, cur, acc),
{
    let s = line + seq!['\n'] + rest;
    assert forall|j: int| 0 <= j < line.len() implies !is_break(s[j]) by {
        assert(s[j] == line[j]);
    }
    assert(s[line.len() as int] == '\n');
    lemma_first_break_at(s, line.len() as int);
    assert(s.subrange(0, line.len() as int) =~= line);
    assert(s.subrange(line.len() as int + 1, s.len() as int) =~= rest);
    lemma_trim_all_space(line);
    if line.len() > 0 {
        assert(line[0] != '#');
    }
}

/// Parsing never associates the empty identifier: a line is either skipped
/// as blank or contributes its trimmed, non-empty text as the key.
pub proof fn lemma_no_empty_identifier(s: Seq<char>, cur: Seq<char>, acc: Map<Seq<char>, Seq<char>>)
    requires
        !acc.contains_key(Seq::<char>::empty()),
    ensures
        !parse_from(s, cur, acc).contains_key(Seq::<char>::empty()),
    decreases s.len(),
{
    if s.len() > 0 {
        lemma_first_break(s);
        let e = first_break(s);
        let line = s.subrange(0, e);
        let rest = if e < s.len() {
            s.subrange(e + 1, s.len() as int)
        } else {
            Seq::<char>::empty()
        };
        if line.len() > 0 && line[0] == '#' {
            lemma_no_empty_identifier(rest, trim(line.subrange(1, line.len() as int)), acc);
        } else if trim(line).len() == 0 {
            lemma_no_empty_identifier(rest, cur, acc);
        } else {
            lemma_no_empty_identifier(rest, cur, acc.insert(trim(line), cur));
        }
    }
}

/// The whole-text form: no dataset text maps the empty identifier.
pub proof fn lemma_dataset_no_empty_identifier(s: Seq<char>)
    ensures
        !parse_dataset(s).contains_key(Seq::<char>::empty()),
{
    lemma_no_empty_identifier(s, Seq::<char>::empty(), Map::<Seq<char>, Seq<char>>::empty());
}

fn is_break_char(c: char) -> (r: bool)
    ensures
        r == is_break(c),
{
    c == '\n' || c == '\r'
}

fn is_space_char(c: char) -> (r: bool)
    ensures
        r == is_space(c),
{
    c == '\u{9}' || c == '\u{A}' || c == '\u{B}' || c == '\u{C}' || c == '\u{D}' || c == ' '
        || c == '\u{85}' || c == '\u{A0}' || c == '\u{1680}' || c == '\u{2000}' || c == '\u{2001}'
        || c == '\u{2002}' || c == '\u{2003}' || c == '\u{2004}' || c == '\u{2005}'
        || c == '\u{2006}' || c == '\u{2007}' || c == '\u{2008}' || c == '\u{2009}'
        || c == '\u{200A}' || c == '\u{2028}' || c == '\u{2029}' || c == '\u{202F}'
        || c == '\u{205F}' || c == '\u{3000}'
}

/// The bounds of `text[from..to)` with leading and trailing whitespace
/// removed: the subrange they delimit is the trimmed line.
fn trim_bounds(text: &str, from: usize, to: usize) -> (r: (usize, usize))
    requires
        from <= to <= text@.len(),
    ensures
        from <= r.0 <= r.1 <= to,
        text@.subrange(r.0 as int, r.1 as int) == trim(
            text@.subrange(from as int, to as int),
        ),
{
    let mut lo = from;
    while lo < to && is_space_char(text.get_char(lo))
        invariant
            from <= lo <= to <= text@.len(),
            forall|k: int| from <= k < lo ==> is_space(text@[k]),
        decreases to - lo,
    {
        lo = lo + 1;
    }
    let mut hi = to;
    while hi > lo && is_space_char(text.get_char(hi - 1))
        invariant
            from <= lo <= hi <= to <= text@.len(),
            forall|k: int| hi <= k < to ==> is_space(text@[k]),
        decreases hi,
    {
        hi = hi - 1;
    }
    proof {
        let line = text@.subrange(from as int, to as int);
        lemma_trim_bounds(line, lo - from, hi - from);
        assert(line.subrange(lo - from, hi - from) =~= text@.subrange(lo as int, hi as int));
    }
    (lo, hi)
}

/// Builds the threat dataset out of a dataset text: exactly the mapping that
/// the line-oriented grammar describes.
pub fn get_ids(text: &str) -> (r: ThreatDataset)
    ensures
        r@ == parse_dataset(text@),
{
    let n = text.unicode_len();
    let mut ds = ThreatDataset::new();
    let mut cur: String = String::new();
    let mut i: usize = 0;
    proof {
        assert(text@.subrange(0, n as int) =~= text@);
    }
    while i < n
        invariant
            n == text@.len(),
            i <= n,
            parse_dataset(text@) == parse_from(
                text@.subrange(i as int, n as int),
                cur@,
                ds@,
            ),
        decreases n - i,
    {
        let start = i;
        let mut j = i;
        while j < n && !is_break_char(text.get_char(j))
            invariant
                n == text@.len(),
                start <= j <= n,
                forall|k: int| start <= k < j ==> !is_break(text@[k]),
            decreases n - j,
        {
            j = j + 1;
        }
        let ghost suffix = text@.subrange(start as int, n as int);
        proof {
            let e = j - start as int;
            assert forall|k: int| 0 <= k < e implies !is_break(suffix[k]) by {
                assert(suffix[k] == text@[start + k]);
            }
            if e < suffix.len() {
                assert(suffix[e] == text@[j as int]);
            }
            lemma_first_break_at(suffix, e);
            assert(suffix.subrange(0, e) =~= text@.subrange(start as int, j as int));
        }
        let is_url_line = j > start && text.get_char(start) == '#';
        if is_url_line {
            let (lo, hi) = trim_bounds(text, start + 1, j);
            let piece = text.substring_char(lo, hi);
            cur = piece.to_owned();
            proof {
                let e = j - start as int;
                let line = suffix.subrange(0, e);
                assert(line[0] == text@[start as int]);
                assert(line.subrange(1, line.len() as int) =~= text@.subrange(
                    start + 1,
                    j as int,
                ));
            }
        } else {
            let (lo, hi) = trim_bounds(text, start, j);
            proof {
                let e = j - start as int;
                let line = suffix.subrange(0, e);
                assert(line =~= text@.subrange(start as int, j as int));
                if e > 0 {
                    assert(line[0] == text@[start as int]);
                }
            }
            if hi > lo {
                let id = text.substring_char(lo, hi).to_owned();
                ds.insert(id, cur.clone());
            }
        }
        let next = if j < n {
            j + 1
        } else {
            j
        };
        proof {
            let e = j - start as int;
            if e < suffix.len() {
                assert(suffix.subrange(e + 1, suffix.len() as int) =~= text@.subrange(
                    next as int,
                    n as int,
                ));
            } else {
                assert(text@.subrange(next as int, n as int) =~= Seq::<char>::empty());
            }
        }
        i = next;
    }
    proof {
        assert(text@.subrange(n as int, n as int) =~= Seq::<char>::empty());
    }
    ds
}

} // verus!
