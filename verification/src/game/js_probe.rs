use vstd::prelude::*;
use vstd::string::StringSliceAdditionalSpecFns;

verus! {

broadcast use {vstd::string::group_string_axioms, vstd::slice::group_slice_axioms};

/// What the scanner is inside of.
#[derive(Debug, Clone, Copy, PartialEq, Eq, Structural)]
pub enum ScanMode {
    Code,
    LineComment,
    BlockComment,
    SingleQuote,
    DoubleQuote,
    Template,
}

/// The scanner's state: the open brackets of each kind and what it is in.
pub struct ProbeState {
    pub braces: int,
    pub parens: int,
    pub brackets: int,
    pub mode: ScanMode,
}

/// Whether the scan ended well: outside comments and strings, every bracket
/// closed.
pub open spec fn scan_done(st: ProbeState) -> bool {
    st.mode == ScanMode::Code && st.braces == 0 && st.parens == 0 && st.brackets == 0
}

/// The byte after position `i`, or 0 past the end.
pub open spec fn next_byte(b: Seq<u8>, i: int) -> u8 {
    if i + 1 < b.len() {
        b[i + 1]
    } else {
        0
    }
}

/// The scanner state after the code byte at `i` and how far it moves.
pub open spec fn code_step(b: Seq<u8>, i: int, st: ProbeState) -> (ProbeState, int) {
    let c = b[i];
    let n = next_byte(b, i);
    if c == 0x2f && n == 0x2f {
        (ProbeState { mode: ScanMode::LineComment, ..st }, 2)
    } else if c == 0x2f && n == 0x2a {
        (ProbeState { mode: ScanMode::BlockComment, ..st }, 2)
    } else if c == 0x27 {
        (ProbeState { mode: ScanMode::SingleQuote, ..st }, 1)
    } else if c == 0x22 {
        (ProbeState { mode: ScanMode::DoubleQuote, ..st }, 1)
    } else if c == 0x60 {
        (ProbeState { mode: ScanMode::Template, ..st }, 1)
    } else if c == 0x28 {
        (ProbeState { parens: st.parens + 1, ..st }, 1)
    } else if c == 0x29 {
        (ProbeState { parens: st.parens - 1, ..st }, 1)
    } else if c == 0x5b {
        (ProbeState { brackets: st.brackets + 1, ..st }, 1)
    } else if c == 0x5d {
        (ProbeState { brackets: st.brackets - 1, ..st }, 1)
    } else if c == 0x7b {
        (ProbeState { braces: st.braces + 1, ..st }, 1)
    } else if c == 0x7d {
        (ProbeState { braces: st.braces - 1, ..st }, 1)
    } else {
        (st, 1)
    }
}

/// The closing quote byte of a string mode.
pub open spec fn quote_of(m: ScanMode) -> u8 {
    match m {
        ScanMode::SingleQuote => 0x27,
        ScanMode::DoubleQuote => 0x22,
        _ => 0x60,
    }
}

/// Scans `b` from `i` in state `st`: `true` when the source ends outside
/// comments and strings with every bracket closed and no bracket is ever
/// closed before it was opened. A backslash in a string skips the next
/// byte.
pub open spec fn scan_from(b: Seq<u8>, i: int, st: ProbeState) -> bool
    decreases b.len() + 1 - i,
{
    if i < 0 || i >= b.len() {
        scan_done(st)
    } else {
        let c = b[i];
        match st.mode {
            ScanMode::LineComment => if c == 0x0a {
                scan_from(b, i + 1, ProbeState { mode: ScanMode::Code, ..st })
            } else {
                scan_from(b, i + 1, st)
            },
            ScanMode::BlockComment => if c == 0x2a && next_byte(b, i) == 0x2f {
                scan_from(b, i + 2, ProbeState { mode: ScanMode::Code, ..st })
            } else {
                scan_from(b, i + 1, st)
            },
            ScanMode::Code => {
                let (st2, adv) = code_step(b, i, st);
                if st2.parens < 0 || st2.braces < 0 || st2.brackets < 0 {
                    false
                } else {
                    scan_from(b, i + adv, st2)
                }
            },
            _ => if c == 0x5c {
                scan_from(b, i + 2, st)
            } else if c == quote_of(st.mode) {
                scan_from(b, i + 1, ProbeState { mode: ScanMode::Code, ..st })
            } else {
                scan_from(b, i + 1, st)
            },
        }
    }
}

/// How many of the first `n` bytes of `b` (all of them past the end) are `c`.
pub open spec fn count_in(b: Seq<u8>, c: u8, n: int) -> int
    decreases n,
{
    if n <= 0 {
        0
    } else if n > b.len() {
        count_in(b, c, b.len() as int)
    } else {
        count_in(b, c, n - 1) + if b[n - 1] == c {
            1int
        } else {
            0int
        }
    }
}

proof fn lemma_count_in_mono(b: Seq<u8>, c: u8, n: int, m: int)
    requires
        n <= m,
    ensures
        count_in(b, c, n) <= count_in(b, c, m),
    decreases m,
{
    if m <= 0 || n == m {
    } else if m > b.len() {
        if n <= b.len() {
            lemma_count_in_mono(b, c, n, b.len() as int);
        }
    } else if n < m {
        lemma_count_in_mono(b, c, n, m - 1);
    }
}

/// The scan of a whole source from the start.
pub open spec fn probe_balanced(b: Seq<u8>) -> bool {
    scan_from(b, 0, ProbeState { braces: 0, parens: 0, brackets: 0, mode: ScanMode::Code })
}

/// A quick syntax check of JavaScript source: brackets, comments and
/// string literals must be balanced.
pub fn js_probe_parse_state(source: &str) -> (r: bool)
    requires
        source.spec_bytes().len() <= isize::MAX,
        count_in(source.spec_bytes(), 0x28, source.spec_bytes().len() as int) <= i32::MAX,
        count_in(source.spec_bytes(), 0x5b, source.spec_bytes().len() as int) <= i32::MAX,
        count_in(source.spec_bytes(), 0x7b, source.spec_bytes().len() as int) <= i32::MAX,
    ensures
        r == probe_balanced(source.spec_bytes()),
{
    let bytes = source.as_bytes();
    let ghost b = bytes@;
    let len = bytes.len();
    let mut braces: i32 = 0;
    let mut parens: i32 = 0;
    let mut brackets: i32 = 0;
    let mut mode = ScanMode::Code;
    let mut i: usize = 0;
    while i < len
        invariant
            b == bytes@,
            b == source.spec_bytes(),
            len == b.len(),
            len <= isize::MAX,
            count_in(b, 0x28, len as int) <= i32::MAX,
            count_in(b, 0x5b, len as int) <= i32::MAX,
            count_in(b, 0x7b, len as int) <= i32::MAX,
            i <= len + 1,
            0 <= braces <= count_in(b, 0x7b, i as int),
            0 <= parens <= count_in(b, 0x28, i as int),
            0 <= brackets <= count_in(b, 0x5b, i as int),
            scan_from(b, i as int, ProbeState { braces: braces as int, parens: parens as int, brackets: brackets as int, mode })
                == probe_balanced(b),
        decreases len + 1 - i,
    {
        let ghost st = ProbeState { braces: braces as int, parens: parens as int, brackets: brackets as int, mode };
        let ghost i0 = i as int;
        let c = bytes[i];
        let next: u8 = if i + 1 < len {
            bytes[i + 1]
        } else {
            0
        };
        assert(next == next_byte(b, i as int));
        proof {
            lemma_count_in_mono(b, 0x28, i as int, i + 2);
            lemma_count_in_mono(b, 0x5b, i as int, i + 2);
            lemma_count_in_mono(b, 0x7b, i as int, i + 2);
            lemma_count_in_mono(b, 0x28, i + 1, len as int);
            lemma_count_in_mono(b, 0x5b, i + 1, len as int);
            lemma_count_in_mono(b, 0x7b, i + 1, len as int);
            assert(count_in(b, 0x28, i + 1) == count_in(b, 0x28, i as int) + if c == 0x28 { 1int } else { 0int });
            assert(count_in(b, 0x5b, i + 1) == count_in(b, 0x5b, i as int) + if c == 0x5b { 1int } else { 0int });
            assert(count_in(b, 0x7b, i + 1) == count_in(b, 0x7b, i as int) + if c == 0x7b { 1int } else { 0int });
        }
        match mode {
            ScanMode::LineComment => {
                if c == 0x0a {
                    mode = ScanMode::Code;
                }
                i = i + 1;
            },
            ScanMode::BlockComment => {
                if c == 0x2a && next == 0x2f {
                    mode = ScanMode::Code;
                    i = i + 2;
                } else {
                    i = i + 1;
                }
            },
            ScanMode::SingleQuote | ScanMode::DoubleQuote | ScanMode::Template => {
                let quote: u8 = match mode {
                    ScanMode::SingleQuote => 0x27,
                    ScanMode::DoubleQuote => 0x22,
                    _ => 0x60,
                };
                if c == 0x5c {
                    i = i + 2;
                } else {
                    if c == quote {
                        mode = ScanMode::Code;
                    }
                    i = i + 1;
                }
            },
            ScanMode::Code => {
                if c == 0x2f && next == 0x2f {
                    mode = ScanMode::LineComment;
                    i = i + 2;
                } else if c == 0x2f && next == 0x2a {
                    mode = ScanMode::BlockComment;
                    i = i + 2;
                } else if c == 0x27 {
                    mode = ScanMode::SingleQuote;
                    i = i + 1;
                } else if c == 0x22 {
                    mode = ScanMode::DoubleQuote;
                    i = i + 1;
                } else if c == 0x60 {
                    mode = ScanMode::Template;
                    i = i + 1;
                } else if c == 0x28 {
                    parens = parens + 1;
                    i = i + 1;
                } else if c == 0x29 {
                    parens = parens - 1;
                    i = i + 1;
                } else if c == 0x5b {
                    brackets = brackets + 1;
                    i = i + 1;
                } else if c == 0x5d {
                    brackets = brackets - 1;
                    i = i + 1;
                } else if c == 0x7b {
                    braces = braces + 1;
                    i = i + 1;
                } else if c == 0x7d {
                    braces = braces - 1;
                    i = i + 1;
                } else {
                    i = i + 1;
                }
                proof {
                    let (st2, adv) = code_step(b, i0, st);
                    assert(st2 == ProbeState { braces: braces as int, parens: parens as int, brackets: brackets as int, mode });
                    assert(adv == i - i0);
                }
                if parens < 0 || braces < 0 || brackets < 0 {
                    assert(!scan_from(b, i0, st));
                    return false;
                }
            },
        }
    }
    mode == ScanMode::Code && braces == 0 && parens == 0 && brackets == 0
}

} // verus!
