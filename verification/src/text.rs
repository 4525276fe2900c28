//! Character-level helpers shared by the parsers of this crate.
//!
//! Every contract here is stated over `Seq<char>`, the view of `str` and
//! `String`.

use vstd::prelude::*;

verus! {

/// The views of a sequence of strings.
pub open spec fn texts(items: Seq<String>) -> Seq<Seq<char>> {
    items.map_values(|s: String| s@)
}

/// The view of an optional string.
pub open spec fn opt_text(item: Option<String>) -> Option<Seq<char>> {
    match item {
        Some(s) => Some(s@),
        None => None,
    }
}

/// Whether `c` has the Unicode property `White_Space`.
pub open spec fn whitespace(c: char) -> bool {
    let n = c as u32;
    ||| 0x09 <= n <= 0x0D
    ||| n == 0x20
    ||| n == 0x85
    ||| n == 0xA0
    ||| n == 0x1680
    ||| 0x2000 <= n <= 0x200A
    ||| n == 0x2028
    ||| n == 0x2029
    ||| n == 0x202F
    ||| n == 0x205F
    ||| n == 0x3000
}

/// `s` without its leading run of whitespace.
pub open spec fn trim_start(s: Seq<char>) -> Seq<char>
    decreases s.len(),
{
    if s.len() > 0 && whitespace(s[0]) {
        trim_start(s.skip(1))
    } else {
        s
    }
}

/// What follows the first occurrence of `c` in `s`, if `c` occurs at all.
pub open spec fn after_first(s: Seq<char>, c: char) -> Option<Seq<char>>
    decreases s.len(),
{
    if s.len() == 0 {
        None
    } else if s[0] == c {
        Some(s.skip(1))
    } else {
        after_first(s.skip(1), c)
    }
}

/// `line` without one trailing carriage return.
pub open spec fn strip_cr(line: Seq<char>) -> Seq<char> {
    if line.len() > 0 && line.last() == '\r' {
        line.drop_last()
    } else {
        line
    }
}

/// The lines of `s`. A line ends at a line feed, or at a carriage return
/// directly followed by a line feed; the terminator is not part of the line.
/// The last line needs no terminator, and a carriage return that no line feed
/// follows stays in its line.
pub open spec fn lines(s: Seq<char>) -> Seq<Seq<char>>
    decreases s.len(),
{
    if s.len() == 0 {
        Seq::empty()
    } else {
        match line_end(s, 0) {
            Some(end) if 0 <= end < s.len() => seq![strip_cr(s.take(end))] + lines(
                s.skip(end + 1),
            ),
            _ => seq![s],
        }
    }
}

/// The index of the first line feed of `s` at or after `from`.
pub open spec fn line_end(s: Seq<char>, from: int) -> Option<int>
    decreases s.len() - from,
{
    if from < 0 || from >= s.len() {
        None
    } else if s[from] == '\n' {
        Some(from)
    } else {
        line_end(s, from + 1)
    }
}

/// `line_end` finds a line feed inside `s`, with none between `from` and it.
pub proof fn lemma_line_end(s: Seq<char>, from: int)
    requires
        0 <= from,
    ensures
        match line_end(s, from) {
            Some(end) => from <= end < s.len() && s[end] == '\n' && forall|j: int|
                from <= j < end ==> s[j] != '\n',
            None => forall|j: int| from <= j < s.len() ==> s[j] != '\n',
        },
    decreases s.len() - from,
{
    if from < s.len() && s[from] != '\n' {
        lemma_line_end(s, from + 1);
    }
}

/// Where `c` first occurs at `at`, `after_first` is the rest behind `at`.
pub proof fn lemma_after_first_found(s: Seq<char>, c: char, at: int)
    requires
        0 <= at < s.len(),
        s[at] == c,
        forall|j: int| 0 <= j < at ==> s[j] != c,
    ensures
        after_first(s, c) == Some(s.skip(at + 1)),
    decreases at,
{
    if at > 0 {
        lemma_after_first_found(s.skip(1), c, at - 1);
        assert(s.skip(1).skip(at) =~= s.skip(at + 1));
    }
}

/// Where `c` does not occur, `after_first` is `None`.
pub proof fn lemma_after_first_absent(s: Seq<char>, c: char)
    requires
        forall|j: int| 0 <= j < s.len() ==> s[j] != c,
    ensures
        after_first(s, c) is None,
    decreases s.len(),
{
    if s.len() > 0 {
        lemma_after_first_absent(s.skip(1), c);
    }
}

/// Where the first `n` characters are whitespace and the next one is not,
/// `trim_start` drops exactly those `n`.
pub proof fn lemma_trim_start(s: Seq<char>, n: int)
    requires
        0 <= n <= s.len(),
        forall|j: int| 0 <= j < n ==> whitespace(s[j]),
        n < s.len() ==> !whitespace(s[n]),
    ensures
        trim_start(s) == s.skip(n),
    decreases n,
{
    if n > 0 {
        lemma_trim_start(s.skip(1), n - 1);
        assert(s.skip(1).skip(n - 1) =~= s.skip(n));
    } else {
        assert(s.skip(0) =~= s);
    }
}

/// Whether `c` has the Unicode property `White_Space`.
pub fn is_whitespace(c: char) -> (r: bool)
    ensures
        r == whitespace(c),
{
    let n: u32 = c as u32;
    (0x09 <= n && n <= 0x0D) || n == 0x20 || n == 0x85 || n == 0xA0 || n == 0x1680 || (0x2000 <= n
        && n <= 0x200A) || n == 0x2028 || n == 0x2029 || n == 0x202F || n == 0x205F || n == 0x3000
}

/// The characters of `s`.
pub fn chars_of(s: &str) -> (out: Vec<char>)
    ensures
        out@ == s@,
{
    let mut out: Vec<char> = Vec::new();
    for c in it: s.chars()
        invariant
            out@ == it.seq().take(it.index()),
            it.seq() == s@,
    {
        out.push(c);
    }
    out
}

/// Whether `chars` begins with `prefix`.
pub fn starts_with(chars: &Vec<char>, prefix: &Vec<char>) -> (r: bool)
    ensures
        r == prefix@.is_prefix_of(chars@),
{
    if prefix.len() > chars.len() {
        return false;
    }
    let mut i: usize = 0;
    while i < prefix.len()
        invariant
            i <= prefix.len() <= chars.len(),
            forall|j: int| 0 <= j < i ==> prefix@[j] == chars@[j],
        decreases prefix.len() - i,
    {
        if prefix[i] != chars[i] {
            assert(chars@.subrange(0, prefix@.len() as int)[i as int] != prefix@[i as int]);
            return false;
        }
        i += 1;
    }
    assert(prefix@ =~= chars@.subrange(0, prefix@.len() as int));
    true
}

/// Whether `a` and `b` hold the same characters.
pub fn same_chars(a: &Vec<char>, b: &Vec<char>) -> (r: bool)
    ensures
        r == (a@ == b@),
{
    if a.len() != b.len() {
        return false;
    }
    let mut i: usize = 0;
    while i < a.len()
        invariant
            i <= a.len() == b.len(),
            forall|j: int| 0 <= j < i ==> a@[j] == b@[j],
        decreases a.len() - i,
    {
        if a[i] != b[i] {
            return false;
        }
        i += 1;
    }
    assert(a@ =~= b@);
    true
}

/// The index of the first `c` in `chars` at or after `from`.
pub(crate) fn find_from(chars: &Vec<char>, c: char, from: usize) -> (r: Option<usize>)
    requires
        from <= chars.len(),
    ensures
        match r {
            Some(at) => from <= at < chars.len() && chars@[at as int] == c && forall|j: int|
                from <= j < at ==> chars@[j] != c,
            None => forall|j: int| from <= j < chars.len() ==> chars@[j] != c,
        },
{
    let mut i: usize = from;
    while i < chars.len()
        invariant
            from <= i <= chars.len(),
            forall|j: int| from <= j < i ==> chars@[j] != c,
        decreases chars.len() - i,
    {
        if chars[i] == c {
            return Some(i);
        }
        i += 1;
    }
    None
}

/// The index behind the run of whitespace that starts at `from`.
pub(crate) fn skip_whitespace(chars: &Vec<char>, from: usize) -> (r: usize)
    requires
        from <= chars.len(),
    ensures
        from <= r <= chars.len(),
        chars@.skip(r as int) == trim_start(chars@.skip(from as int)),
{
    let mut i: usize = from;
    while i < chars.len() && is_whitespace(chars[i])
        invariant
            from <= i <= chars.len(),
            forall|j: int| from <= j < i ==> whitespace(chars@[j]),
        decreases chars.len() - i,
    {
        i += 1;
    }
    proof {
        let rest = chars@.skip(from as int);
        lemma_trim_start(rest, i - from);
        assert(rest.skip(i - from) =~= chars@.skip(i as int));
    }
    i
}

/// The characters of `s` from `from` to `to`, as a string of its own.
pub(crate) fn slice_of(s: &str, from: usize, to: usize) -> (r: String)
    requires
        from <= to <= s@.len(),
    ensures
        r@ == s@.subrange(from as int, to as int),
{
    s.substring_char(from, to).to_owned()
}

/// The lines of `s`, as `lines` defines them.
pub fn split_lines(s: &str) -> (out: Vec<String>)
    ensures
        texts(out@) == lines(s@),
{
    let chars = chars_of(s);
    let mut out: Vec<String> = Vec::new();
    let mut start: usize = 0;
    proof {
        assert(s@.skip(0) =~= s@);
        assert(texts(out@) + lines(s@) =~= lines(s@));
    }
    while start < chars.len()
        invariant
            start <= chars.len(),
            chars@ == s@,
            lines(s@) == texts(out@) + lines(s@.skip(start as int)),
        decreases chars.len() - start,
    {
        let ghost rest = s@.skip(start as int);
        proof {
            lemma_line_end(s@, start as int);
            lemma_line_end_shift(s@, start as int);
        }
        match find_from(&chars, '\n', start) {
            Some(end) => {
                let stop: usize = if end > start && chars[end - 1] == '\r' {
                    end - 1
                } else {
                    end
                };
                let line = slice_of(s, start, stop);
                proof {
                    assert(line_end(s@, start as int) == Some(end as int));
                    assert(line_end(rest, 0) == Some(end - start));
                    assert(rest.take(end - start) =~= s@.subrange(start as int, end as int));
                    assert(strip_cr(rest.take(end - start)) =~= s@.subrange(
                        start as int,
                        stop as int,
                    ));
                    assert(rest.skip(end - start + 1) =~= s@.skip(end + 1));
                    assert(lines(rest) == seq![line@] + lines(s@.skip(end + 1)));
                    assert(texts(out@.push(line)) =~= texts(out@) + seq![line@]);
                    assert(texts(out@.push(line)) + lines(s@.skip(end + 1)) =~= texts(out@)
                        + lines(rest));
                }
                out.push(line);
                start = end + 1;
            },
            None => {
                let line = slice_of(s, start, chars.len());
                proof {
                    assert(line_end(s@, start as int) is None);
                    assert(line_end(rest, 0) is None);
                    assert(rest =~= s@.subrange(start as int, s@.len() as int));
                    assert(lines(rest) == seq![line@]);
                    assert(texts(out@.push(line)) =~= texts(out@) + seq![line@]);
                    assert(lines(s@.skip(s@.len() as int)) =~= Seq::<Seq<char>>::empty());
                    assert(texts(out@.push(line)) + lines(s@.skip(s@.len() as int)) =~= texts(
                        out@,
                    ) + lines(rest));
                }
                out.push(line);
                start = chars.len();
            },
        }
    }
    assert(lines(s@.skip(start as int)) =~= Seq::<Seq<char>>::empty());
    out
}

/// `line_end` of a suffix is `line_end` of the whole, moved by the offset.
pub proof fn lemma_line_end_shift(s: Seq<char>, start: int)
    requires
        0 <= start <= s.len(),
    ensures
        line_end(s.skip(start), 0) == match line_end(s, start) {
            Some(end) => Some(end - start),
            None => None,
        },
{
    let rest = s.skip(start);
    lemma_line_end(s, start);
    lemma_line_end(rest, 0);
    match line_end(s, start) {
        Some(end) => {
            assert(rest[end - start] == '\n');
            match line_end(rest, 0) {
                Some(found) => {
                    assert(s[start + found] == '\n');
                },
                None => {},
            }
        },
        None => {
            match line_end(rest, 0) {
                Some(found) => {
                    assert(s[start + found] == '\n');
                },
                None => {},
            }
        },
    }
}

} // verus!
