//! Character classes and scanning primitives shared by the manifest grammar.

use vstd::prelude::*;
use vstd::utf8::{encode_utf8, valid_utf8};

verus! {

/// The classes of characters that the manifest grammar tells apart.
#[derive(Clone, Copy, Debug, PartialEq, Eq)]
pub enum CharClass {
    /// ASCII white space: space, tab, line feed, vertical tab, form feed,
    /// carriage return.
    Space,
    /// `0`-`9`, `a`-`f`, `A`-`F`.
    HexDigit,
    /// What may stand between the closing parenthesis and the checksum:
    /// white space or `=`.
    Separator,
}

/// ASCII white space.
pub open spec fn is_space(c: char) -> bool {
    c == ' ' || c == '\t' || c == '\n' || c == '\x0b' || c == '\x0c' || c == '\r'
}

/// A hex digit, in either case.
pub open spec fn is_hex_digit(c: char) -> bool {
    ('0' <= c && c <= '9') || ('a' <= c && c <= 'f') || ('A' <= c && c <= 'F')
}

/// White space or `=`.
pub open spec fn is_separator(c: char) -> bool {
    is_space(c) || c == '='
}

/// A hex digit other than `A`-`F`.
pub open spec fn is_lower_hex_digit(c: char) -> bool {
    ('0' <= c && c <= '9') || ('a' <= c && c <= 'f')
}

/// The hex digit `c` in lower case; any other character is left as it is.
pub open spec fn lower_hex(c: char) -> char {
    if c == 'A' {
        'a'
    } else if c == 'B' {
        'b'
    } else if c == 'C' {
        'c'
    } else if c == 'D' {
        'd'
    } else if c == 'E' {
        'e'
    } else if c == 'F' {
        'f'
    } else {
        c
    }
}

/// `s` with its hex digits in lower case.
pub open spec fn lowered(s: Seq<char>) -> Seq<char> {
    s.map_values(|c: char| lower_hex(c))
}

/// Whether every character of `s` is a hex digit other than `A`-`F`.
pub open spec fn is_lower_hex(s: Seq<char>) -> bool {
    forall|i: int| 0 <= i < s.len() ==> is_lower_hex_digit(#[trigger] s[i])
}

impl CharClass {
    /// Whether `c` belongs to the class.
    pub open spec fn has(self, c: char) -> bool {
        match self {
            CharClass::Space => is_space(c),
            CharClass::HexDigit => is_hex_digit(c),
            CharClass::Separator => is_separator(c),
        }
    }

    /// Whether `c` belongs to the class.
    pub fn contains(self, c: char) -> (r: bool)
        ensures
            r == self.has(c),
    {
        match self {
            CharClass::Space => {
                c == ' ' || c == '\t' || c == '\n' || c == '\x0b' || c == '\x0c' || c == '\r'
            },
            CharClass::HexDigit => {
                ('0' <= c && c <= '9') || ('a' <= c && c <= 'f') || ('A' <= c && c <= 'F')
            },
            CharClass::Separator => {
                c == ' ' || c == '\t' || c == '\n' || c == '\x0b' || c == '\x0c' || c == '\r'
                    || c == '='
            },
        }
    }
}

/// The characters of `s`, in order.
pub fn to_chars(s: &str) -> (v: Vec<char>)
    ensures
        v@ == s@,
{
    let mut v: Vec<char> = Vec::new();
    for c in it: s.chars()
        invariant
            v@ == it.seq().take(it.index()),
            it.seq() == s@,
    {
        v.push(c);
    }
    v
}

/// Calls `core::str::from_utf8`. Trusted: the call succeeds exactly on the
/// byte strings that are well-formed UTF-8, and the text it returns is
/// encoded by just those bytes.
#[verifier::external_body]
pub(crate) fn utf8_text<'a>(bytes: &'a [u8]) -> (text: Option<&'a str>)
    ensures
        text is Some <==> valid_utf8(bytes@),
        text matches Some(s) ==> encode_utf8(s@) == bytes@,
{
    core::str::from_utf8(bytes).ok()
}

/// The first index at or after `from` at which `s` holds `c`; the length of
/// `s` where there is none.
pub open spec fn find(s: Seq<char>, c: char, from: int) -> int
    decreases s.len() - from,
{
    if 0 <= from < s.len() {
        if s[from] == c {
            from
        } else {
            find(s, c, from + 1)
        }
    } else {
        s.len() as int
    }
}

/// Where the run of `class` characters that ends just before `end` begins:
/// the least `k` such that every character of `s` in `k..end` is of the class.
pub open spec fn run_start(s: Seq<char>, end: int, class: CharClass) -> int
    decreases end,
{
    if 0 < end <= s.len() && class.has(s[end - 1]) {
        run_start(s, end - 1, class)
    } else {
        end
    }
}

/// Where the run of `class` characters that begins at `start` ends, looking
/// no further than `limit`.
pub open spec fn run_end(s: Seq<char>, start: int, limit: int, class: CharClass) -> int
    decreases limit - start,
{
    if 0 <= start < limit <= s.len() && class.has(s[start]) {
        run_end(s, start + 1, limit, class)
    } else {
        start
    }
}

/// `s` without its leading and trailing white space.
pub open spec fn trimmed(s: Seq<char>) -> Seq<char> {
    let end = run_start(s, s.len() as int, CharClass::Space);
    s.subrange(run_end(s, 0, end, CharClass::Space), end)
}

/// Whether `s` holds nothing but white space.
pub open spec fn is_blank(s: Seq<char>) -> bool {
    run_start(s, s.len() as int, CharClass::Space) == 0
}

/// Whether every character of `s` is of the class.
pub open spec fn all_of(s: Seq<char>, class: CharClass) -> bool {
    forall|i: int| 0 <= i < s.len() ==> class.has(#[trigger] s[i])
}

/// `find` returns the first occurrence at or after `from`, if any.
pub proof fn lemma_find(s: Seq<char>, c: char, from: int)
    requires
        0 <= from <= s.len(),
    ensures
        from <= find(s, c, from) <= s.len(),
        find(s, c, from) < s.len() ==> s[find(s, c, from)] == c,
        forall|i: int| from <= i < find(s, c, from) ==> #[trigger] s[i] != c,
    decreases s.len() - from,
{
    if from < s.len() && s[from] != c {
        lemma_find(s, c, from + 1);
    }
}

/// Searching a suffix of `s` is searching `s` from where the suffix begins.
pub proof fn lemma_find_skip(s: Seq<char>, c: char, from: int, i: int)
    requires
        0 <= from,
        0 <= i,
        from + i <= s.len(),
    ensures
        find(s.skip(from), c, i) == find(s, c, from + i) - from,
    decreases s.len() - from - i,
{
    if from + i < s.len() {
        assert(s.skip(from)[i] == s[from + i]);
        if s[from + i] != c {
            lemma_find_skip(s, c, from, i + 1);
        }
    }
}

/// `run_start` marks a run of the class that cannot be extended to the left.
pub proof fn lemma_run_start(s: Seq<char>, end: int, class: CharClass)
    requires
        0 <= end <= s.len(),
    ensures
        0 <= run_start(s, end, class) <= end,
        forall|i: int| run_start(s, end, class) <= i < end ==> class.has(#[trigger] s[i]),
        run_start(s, end, class) > 0 ==> !class.has(s[run_start(s, end, class) - 1]),
    decreases end,
{
    if 0 < end && class.has(s[end - 1]) {
        lemma_run_start(s, end - 1, class);
    }
}

/// `run_end` marks a run of the class that cannot be extended to the right
/// within the limit.
pub proof fn lemma_run_end(s: Seq<char>, start: int, limit: int, class: CharClass)
    requires
        0 <= start <= limit <= s.len(),
    ensures
        start <= run_end(s, start, limit, class) <= limit,
        forall|i: int| start <= i < run_end(s, start, limit, class) ==> class.has(#[trigger] s[i]),
        run_end(s, start, limit, class) < limit ==> !class.has(s[run_end(s, start, limit, class)]),
    decreases limit - start,
{
    if start < limit && class.has(s[start]) {
        lemma_run_end(s, start + 1, limit, class);
    }
}

/// A run within a prefix of `s` is a run of `s`.
pub proof fn lemma_run_start_take(s: Seq<char>, n: int, end: int, class: CharClass)
    requires
        0 <= end <= n <= s.len(),
    ensures
        run_start(s.take(n), end, class) == run_start(s, end, class),
    decreases end,
{
    if 0 < end {
        assert(s.take(n)[end - 1] == s[end - 1]);
        if class.has(s[end - 1]) {
            lemma_run_start_take(s, n, end - 1, class);
        }
    }
}

/// A run within a prefix of `s` is a run of `s`.
pub proof fn lemma_run_end_take(s: Seq<char>, n: int, start: int, limit: int, class: CharClass)
    requires
        0 <= start <= limit <= n <= s.len(),
    ensures
        run_end(s.take(n), start, limit, class) == run_end(s, start, limit, class),
    decreases limit - start,
{
    if start < limit {
        assert(s.take(n)[start] == s[start]);
        if class.has(s[start]) {
            lemma_run_end_take(s, n, start + 1, limit, class);
        }
    }
}

/// Where the trimmed form of a prefix of `s` lies within `s`.
pub proof fn lemma_trimmed_take(s: Seq<char>, n: int)
    requires
        0 <= n <= s.len(),
    ensures
        ({
            let end = run_start(s, n, CharClass::Space);
            let start = run_end(s, 0, end, CharClass::Space);
            0 <= start <= end <= n && trimmed(s.take(n)) == s.subrange(start, end)
        }),
{
    let end = run_start(s, n, CharClass::Space);
    lemma_run_start(s, n, CharClass::Space);
    lemma_run_end(s, 0, end, CharClass::Space);
    lemma_run_start_take(s, n, n, CharClass::Space);
    lemma_run_end_take(s, n, 0, end, CharClass::Space);
    let start = run_end(s, 0, end, CharClass::Space);
    assert(s.take(n).subrange(start, end) =~= s.subrange(start, end));
}

/// An index that `find` cannot but return.
pub proof fn lemma_find_is(s: Seq<char>, c: char, from: int, at: int)
    requires
        0 <= from <= at <= s.len(),
        forall|i: int| from <= i < at ==> #[trigger] s[i] != c,
        at < s.len() ==> s[at] == c,
    ensures
        find(s, c, from) == at,
    decreases at - from,
{
    if from < at {
        lemma_find_is(s, c, from + 1, at);
    }
}

/// An index that `run_start` cannot but return.
pub proof fn lemma_run_start_is(s: Seq<char>, end: int, class: CharClass, start: int)
    requires
        0 <= start <= end <= s.len(),
        forall|i: int| start <= i < end ==> class.has(#[trigger] s[i]),
        start > 0 ==> !class.has(s[start - 1]),
    ensures
        run_start(s, end, class) == start,
    decreases end - start,
{
    if start < end {
        lemma_run_start_is(s, end - 1, class, start);
    }
}

/// An index that `run_end` cannot but return.
pub proof fn lemma_run_end_is(s: Seq<char>, start: int, limit: int, class: CharClass, end: int)
    requires
        0 <= start <= end <= limit <= s.len(),
        forall|i: int| start <= i < end ==> class.has(#[trigger] s[i]),
        end < limit ==> !class.has(s[end]),
    ensures
        run_end(s, start, limit, class) == end,
    decreases end - start,
{
    if start < end {
        lemma_run_end_is(s, start + 1, limit, class, end);
    }
}

/// The first index at or after `from` at which `chars` holds `c`.
pub fn find_char(chars: &Vec<char>, c: char, from: usize) -> (at: usize)
    requires
        from <= chars.len(),
    ensures
        at == find(chars@, c, from as int),
        from <= at <= chars.len(),
{
    let mut i: usize = from;
    while i < chars.len() && chars[i] != c
        invariant
            from <= i <= chars.len(),
            find(chars@, c, from as int) == find(chars@, c, i as int),
        decreases chars.len() - i,
    {
        i += 1;
    }
    i
}

/// The characters `from..to` of `line`, with the hex digits in lower case.
pub fn lowered_range(line: &str, chars: &Vec<char>, from: usize, to: usize) -> (out: String)
    requires
        chars@ == line@,
        from <= to <= chars.len(),
    ensures
        out@ == lowered(line@.subrange(from as int, to as int)),
{
    let mut upper: usize = from;
    while upper < to && !('A' <= chars[upper] && chars[upper] <= 'F')
        invariant
            from <= upper <= to <= chars.len(),
            forall|k: int| from <= k < upper ==> lower_hex(#[trigger] chars@[k]) == chars@[k],
        decreases to - upper,
    {
        upper += 1;
    }
    if upper == to {
        assert(lowered(line@.subrange(from as int, to as int)) =~= line@.subrange(
            from as int,
            to as int,
        ));
        return line.substring_char(from, to).to_owned();
    }
    let mut out = String::new();
    let mut i: usize = from;
    assert(lowered(line@.subrange(from as int, from as int)) =~= out@);
    while i < to
        invariant
            from <= i <= to <= chars.len(),
            chars@ == line@,
            out@ == lowered(line@.subrange(from as int, i as int)),
        decreases to - i,
    {
        let c = chars[i];
        proof {
            reveal_strlit("a");
            reveal_strlit("b");
            reveal_strlit("c");
            reveal_strlit("d");
            reveal_strlit("e");
            reveal_strlit("f");
        }
        let ghost before = out@;
        if c == 'A' {
            out.append("a");
        } else if c == 'B' {
            out.append("b");
        } else if c == 'C' {
            out.append("c");
        } else if c == 'D' {
            out.append("d");
        } else if c == 'E' {
            out.append("e");
        } else if c == 'F' {
            out.append("f");
        } else {
            out.append(line.substring_char(i, i + 1));
        }
        assert(out@ =~= before.push(lower_hex(c)));
        assert(lowered(line@.subrange(from as int, i + 1)) =~= lowered(
            line@.subrange(from as int, i as int),
        ).push(lower_hex(c)));
        i += 1;
    }
    out
}

/// Walks left from `end` over the characters of the class.
pub fn scan_back(chars: &Vec<char>, end: usize, class: CharClass) -> (start: usize)
    requires
        end <= chars.len(),
    ensures
        start == run_start(chars@, end as int, class),
        start <= end,
{
    let mut i: usize = end;
    while i > 0 && class.contains(chars[i - 1])
        invariant
            i <= end <= chars.len(),
            run_start(chars@, end as int, class) == run_start(chars@, i as int, class),
        decreases i,
    {
        i -= 1;
    }
    i
}

/// Walks right from `start` over the characters of the class, up to `limit`.
pub fn scan_forward(chars: &Vec<char>, start: usize, limit: usize, class: CharClass) -> (end: usize)
    requires
        start <= limit <= chars.len(),
    ensures
        end == run_end(chars@, start as int, limit as int, class),
        start <= end <= limit,
{
    let mut i: usize = start;
    while i < limit && class.contains(chars[i])
        invariant
            start <= i <= limit <= chars.len(),
            run_end(chars@, start as int, limit as int, class) == run_end(
                chars@,
                i as int,
                limit as int,
                class,
            ),
        decreases limit - i,
    {
        i += 1;
    }
    i
}

} // verus!
