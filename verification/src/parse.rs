use vstd::prelude::*;
use vstd::slice::{slice_subrange, slice_to_vec};
use crate::error::SetupError;

verus! {

/// The index of the first line feed at or after `start`, or the length of
/// `s` where there is none.
pub open spec fn line_end(s: Seq<u8>, start: int) -> int
    decreases s.len() - start,
{
    if start < 0 || start >= s.len() {
        s.len() as int
    } else if s[start] == 10u8 {
        start
    } else {
        line_end(s, start + 1)
    }
}

/// Where the content of the line that begins at `start` ends: at its line
/// feed, or one earlier where a carriage return stands before the line feed.
pub open spec fn line_content_end(s: Seq<u8>, start: int) -> int {
    let e = line_end(s, start);
    if e < s.len() && e > start && s[e - 1] == 13u8 {
        e - 1
    } else {
        e
    }
}

/// Where the line after the one that begins at `start` begins.
pub open spec fn next_line_start(s: Seq<u8>, start: int) -> int {
    let e = line_end(s, start);
    if e < s.len() {
        e + 1
    } else {
        s.len() as int
    }
}

/// Where line `k` begins, counting lines from zero.
pub open spec fn line_start(s: Seq<u8>, k: nat) -> int
    decreases k,
{
    if k == 0 {
        0
    } else {
        next_line_start(s, line_start(s, (k - 1) as nat))
    }
}

/// Whether the text has a line `k`. A final line needs no line feed, and
/// nothing after the last line feed is no line.
pub open spec fn has_line(s: Seq<u8>, k: nat) -> bool {
    line_start(s, k) < s.len()
}

/// The content of line `k`, without its line ending.
pub open spec fn line(s: Seq<u8>, k: nat) -> Seq<u8> {
    s.subrange(line_start(s, k), line_content_end(s, line_start(s, k)))
}

/// The contents of `count` lines from line `first` on.
pub open spec fn lines_from(s: Seq<u8>, first: nat, count: nat) -> Seq<Seq<u8>> {
    Seq::new(count, |i: int| line(s, first + i as nat))
}

pub open spec fn is_digit(c: u8) -> bool {
    48 <= c <= 57
}

pub open spec fn all_digits(s: Seq<u8>) -> bool {
    forall|i: int| 0 <= i < s.len() ==> is_digit(#[trigger] s[i])
}

/// The number that a sequence of decimal digits writes.
pub open spec fn decimal_value(s: Seq<u8>) -> nat
    decreases s.len(),
{
    if s.len() == 0 {
        0
    } else {
        10 * decimal_value(s.drop_last()) + (s.last() - 48) as nat
    }
}

/// The text of a count without an optional leading plus sign.
pub open spec fn unsigned_part(s: Seq<u8>) -> Seq<u8> {
    if s.len() > 0 && s[0] == 43u8 {
        s.subrange(1, s.len() as int)
    } else {
        s
    }
}

/// The count that a header line writes: one or more decimal digits, after an
/// optional plus sign, whose value is a machine-sized integer.
pub open spec fn count_value(text: Seq<u8>) -> Option<usize> {
    let d = unsigned_part(text);
    if d.len() > 0 && all_digits(d) && decimal_value(d) <= usize::MAX {
        Some(decimal_value(d) as usize)
    } else {
        None
    }
}

/// What parsing a setup text gives: the primary and the secondary hex
/// lines, or the error.
pub open spec fn parsed_setup(text: Seq<u8>) -> Result<(Seq<Seq<u8>>, Seq<Seq<u8>>), SetupError> {
    if !has_line(text, 0) || !has_line(text, 1) {
        Err(SetupError::MalformedHeader)
    } else {
        match (count_value(line(text, 0)), count_value(line(text, 1))) {
            (Some(c1), Some(c2)) => {
                if c1 + c2 > 0 && !has_line(text, (c1 + c2 + 1) as nat) {
                    Err(SetupError::TruncatedFile)
                } else {
                    Ok((lines_from(text, 2, c1 as nat), lines_from(text, 2 + c1 as nat, c2 as nat)))
                }
            },
            _ => Err(SetupError::MalformedHeader),
        }
    }
}

/// The byte strings that a vector of lines holds.
pub open spec fn line_views(lines: Seq<Vec<u8>>) -> Seq<Seq<u8>> {
    Seq::new(lines.len(), |i: int| lines[i]@)
}

/// The counts and hex lines of a setup text, before any point is decoded.
#[derive(Clone, Debug)]
pub struct RawSetup {
    pub count_primary: usize,
    pub count_secondary: usize,
    pub primary_hex: Vec<Vec<u8>>,
    pub secondary_hex: Vec<Vec<u8>>,
}

impl RawSetup {
    /// Each group holds as many hex lines as its count says.
    pub open spec fn wf(&self) -> bool {
        &&& self.primary_hex@.len() == self.count_primary
        &&& self.secondary_hex@.len() == self.count_secondary
    }
}

pub proof fn lemma_line_end_bounds(s: Seq<u8>, start: int)
    requires
        0 <= start <= s.len(),
    ensures
        start <= line_content_end(s, start) <= line_end(s, start) <= s.len(),
        start <= next_line_start(s, start) <= s.len(),
        start < s.len() ==> start < next_line_start(s, start),
    decreases s.len() - start,
{
    if start < s.len() && s[start] != 10u8 {
        lemma_line_end_bounds(s, start + 1);
    }
}

pub proof fn lemma_line_start_bounds(s: Seq<u8>, k: nat)
    ensures
        0 <= line_start(s, k) <= s.len(),
    decreases k,
{
    if k > 0 {
        lemma_line_start_bounds(s, (k - 1) as nat);
        lemma_line_end_bounds(s, line_start(s, (k - 1) as nat));
    }
}

/// A text that lacks line `k` lacks every later line.
pub proof fn lemma_no_later_line(s: Seq<u8>, k: nat, m: nat)
    requires
        !has_line(s, k),
        k <= m,
    ensures
        !has_line(s, m),
    decreases m,
{
    lemma_line_start_bounds(s, k);
    if k < m {
        lemma_no_later_line(s, k, (m - 1) as nat);
        lemma_line_start_bounds(s, (m - 1) as nat);
        lemma_line_end_bounds(s, line_start(s, (m - 1) as nat));
    }
}

proof fn lemma_decimal_prefix(s: Seq<u8>, j: int)
    requires
        0 <= j <= s.len(),
    ensures
        decimal_value(s.take(j)) <= decimal_value(s),
    decreases s.len(),
{
    if j == s.len() {
        assert(s.take(j) =~= s);
    } else {
        assert(s.drop_last().take(j) =~= s.take(j));
        lemma_decimal_prefix(s.drop_last(), j);
    }
}

/// Finds the line that begins at `start`: where its content ends and where
/// the next line begins.
pub fn scan_line(text: &[u8], start: usize) -> (r: (usize, usize))
    requires
        start <= text@.len(),
    ensures
        r.0 == line_content_end(text@, start as int),
        r.1 == next_line_start(text@, start as int),
        start <= r.0 <= r.1 <= text@.len(),
{
    let len = text.len();
    let mut e: usize = start;
    while e < len && text[e] != 10
        invariant
            len == text@.len(),
            start <= e <= len,
            line_end(text@, e as int) == line_end(text@, start as int),
        decreases len - e,
    {
        e = e + 1;
    }
    proof {
        lemma_line_end_bounds(text@, start as int);
    }
    let next: usize = if e < len {
        e + 1
    } else {
        len
    };
    let content_end: usize = if e < len && e > start && text[e - 1] == 13 {
        e - 1
    } else {
        e
    };
    (content_end, next)
}

/// Reads a count: one or more decimal digits after an optional plus sign.
pub fn parse_count(text: &[u8]) -> (r: Option<usize>)
    ensures
        r == count_value(text@),
{
    let first: usize = if text.len() > 0 && text[0] == 43 {
        1
    } else {
        0
    };
    let d = slice_subrange(text, first, text.len());
    assert(d@ == unsigned_part(text@)) by {
        assert(text@.subrange(0, text@.len() as int) =~= text@);
    }
    if d.len() == 0 {
        return None;
    }
    let mut acc: usize = 0;
    let mut i: usize = 0;
    while i < d.len()
        invariant
            i <= d@.len(),
            d@.len() > 0,
            d@ == unsigned_part(text@),
            all_digits(d@.take(i as int)),
            acc == decimal_value(d@.take(i as int)),
        decreases d@.len() - i,
    {
        let c = d[i];
        proof {
            assert(d@.take(i + 1).drop_last() =~= d@.take(i as int));
            assert(d@.take(i + 1).last() == c);
            lemma_decimal_prefix(d@, i + 1);
        }
        if c < 48 || c > 57 {
            assert(!is_digit(d@[i as int]));
            return None;
        }
        let v: usize = (c - 48) as usize;
        if acc > (usize::MAX - v) / 10 {
            assert(decimal_value(d@.take(i + 1)) == 10 * acc + v);
            return None;
        }
        acc = acc * 10 + v;
        i = i + 1;
        proof {
            assert forall|j: int| 0 <= j < i implies is_digit(#[trigger] d@.take(i as int)[j]) by {
                if j < i - 1 {
                    assert(d@.take(i - 1)[j] == d@[j]);
                }
            }
        }
    }
    proof {
        assert(d@.take(i as int) =~= d@);
    }
    Some(acc)
}

/// Copies `count` lines out of the text, the first of which begins at
/// `start`. Gives the lines and where the line after them begins, or `None`
/// where the text ends before the last of them.
fn collect_lines(text: &[u8], start: usize, count: usize, first: Ghost<nat>) -> (r: Option<
    (Vec<Vec<u8>>, usize),
>)
    requires
        start == line_start(text@, first@),
    ensures
        match r {
            Some((lines, next)) => {
                &&& line_views(lines@) == lines_from(text@, first@, count as nat)
                &&& next == line_start(text@, first@ + count as nat)
                &&& count > 0 ==> has_line(text@, (first@ + count - 1) as nat)
            },
            None => count > 0 && !has_line(text@, (first@ + count - 1) as nat),
        },
{
    let mut lines: Vec<Vec<u8>> = Vec::new();
    let mut pos: usize = start;
    let mut i: usize = 0;
    proof {
        lemma_line_start_bounds(text@, first@);
    }
    while i < count
        invariant
            i <= count,
            pos <= text@.len(),
            pos == line_start(text@, first@ + i as nat),
            lines@.len() == i,
            forall|j: int| 0 <= j < i ==> (#[trigger] lines@[j])@ == line(text@, first@ + j as nat),
            i > 0 ==> has_line(text@, (first@ + i - 1) as nat),
        decreases count - i,
    {
        if pos >= text.len() {
            proof {
                lemma_no_later_line(text@, first@ + i as nat, (first@ + count - 1) as nat);
            }
            return None;
        }
        let (content_end, next) = scan_line(text, pos);
        let content = slice_to_vec(slice_subrange(text, pos, content_end));
        lines.push(content);
        pos = next;
        i = i + 1;
    }
    proof {
        assert(line_views(lines@) =~= lines_from(text@, first@, count as nat));
    }
    Some((lines, pos))
}

/// Parses a setup text: two count lines, then that many primary and that
/// many secondary hex lines.
pub fn parse_setup(text: &[u8]) -> (r: Result<RawSetup, SetupError>)
    ensures
        match r {
            Ok(raw) => raw.wf() && parsed_setup(text@) == Ok::<
                (Seq<Seq<u8>>, Seq<Seq<u8>>),
                SetupError,
            >((line_views(raw.primary_hex@), line_views(raw.secondary_hex@))),
            Err(e) => parsed_setup(text@) == Err::<(Seq<Seq<u8>>, Seq<Seq<u8>>), SetupError>(e),
        },
{
    let header = match collect_lines(text, 0, 2, Ghost(0)) {
        Some((lines, next)) => (lines, next),
        None => {
            proof {
                if !has_line(text@, 0) {
                    lemma_no_later_line(text@, 0, 1);
                }
            }
            return Err(SetupError::MalformedHeader);
        },
    };
    let lines = header.0;
    let pos = header.1;
    proof {
        if !has_line(text@, 0) {
            lemma_no_later_line(text@, 0, 1);
        }
        assert(line_views(lines@).len() == lines@.len());
        assert(lines_from(text@, 0, 2).len() == 2);
        assert(line_views(lines@)[0] == line(text@, 0));
        assert(line_views(lines@)[1] == line(text@, 1));
    }
    let count_primary = match parse_count(lines[0].as_slice()) {
        Some(c) => c,
        None => {
            return Err(SetupError::MalformedHeader);
        },
    };
    let count_secondary = match parse_count(lines[1].as_slice()) {
        Some(c) => c,
        None => {
            return Err(SetupError::MalformedHeader);
        },
    };
    let (primary_hex, pos) = match collect_lines(text, pos, count_primary, Ghost(2)) {
        Some((lines, next)) => (lines, next),
        None => {
            proof {
                lemma_no_later_line(
                    text@,
                    (count_primary + 1) as nat,
                    (count_primary + count_secondary + 1) as nat,
                );
            }
            return Err(SetupError::TruncatedFile);
        },
    };
    let (secondary_hex, _) = match collect_lines(
        text,
        pos,
        count_secondary,
        Ghost((2 + count_primary) as nat),
    ) {
        Some((lines, next)) => (lines, next),
        None => {
            return Err(SetupError::TruncatedFile);
        },
    };
    proof {
        assert(line_views(primary_hex@).len() == primary_hex@.len());
        assert(line_views(secondary_hex@).len() == secondary_hex@.len());
        assert(lines_from(text@, 2, count_primary as nat).len() == count_primary);
        assert(lines_from(text@, 2 + count_primary as nat, count_secondary as nat).len()
            == count_secondary);
        assert(has_line(text@, 0) && has_line(text@, 1));
        if count_primary + count_secondary > 0 {
            assert(has_line(text@, (count_primary + count_secondary + 1) as nat));
        }
    }
    Ok(RawSetup { count_primary, count_secondary, primary_hex, secondary_hex })
}

} // verus!
