//! A parser for run-length-encoded Life patterns: a header giving the
//! pattern's width and height, then runs of dead (`b`) and alive (`o`)
//! cells, with `$` ending a row and `!` ending the pattern.

use vstd::prelude::*;

verus! {

/// Why an RLE pattern was rejected.
#[derive(Clone, Copy, Debug, PartialEq, Eq)]
pub enum RleError {
    /// Every line of the input starts with `#`.
    MissingHeader,
    /// The header line does not have the shape `x = <n>, y = <n>`.
    BadHeader,
    /// A row, at its `$` or `!` terminator, holds more cells than the
    /// header's width.
    RowTooLong,
    /// A byte that is not a run count, a cell tag, a terminator or
    /// whitespace.
    BadCharacter,
    /// The pattern does not fit in memory, or holds more cells than the
    /// header promises.
    TooLarge,
}

/// The six ASCII bytes that `char::is_whitespace` accepts.
pub open spec fn is_rle_space(c: u8) -> bool {
    c == 32 || c == 9 || c == 10 || c == 11 || c == 12 || c == 13
}

/// An ASCII decimal digit.
pub open spec fn is_rle_digit(c: u8) -> bool {
    48 <= c <= 57
}

/// The first position of `sep` in `s` at or after `from`, or `s.len()` when
/// there is none.
pub open spec fn find_byte(s: Seq<u8>, sep: u8, from: int) -> int
    decreases s.len() - from,
{
    if from < 0 {
        0
    } else if from >= s.len() {
        s.len() as int
    } else if s[from] == sep {
        from
    } else {
        find_byte(s, sep, from + 1)
    }
}

/// The value of a string of decimal digits.
pub open spec fn digits_value(s: Seq<u8>) -> int
    decreases s.len(),
{
    if s.len() == 0 {
        0
    } else {
        digits_value(s.drop_last()) * 10 + (s.last() - 48)
    }
}

/// Whether every byte of the input is a decimal digit.
pub open spec fn all_digits(s: Seq<u8>) -> bool
    decreases s.len(),
{
    s.len() == 0 || (is_rle_digit(s.last()) && all_digits(s.drop_last()))
}

/// What parsing an unsigned machine integer accepts: an optional leading
/// `+`, then at least one digit, and a value that fits.
pub open spec fn parse_usize(s: Seq<u8>) -> Option<int> {
    let body: Seq<u8> = if s.len() > 0 && s[0] == 43 {
        s.skip(1)
    } else {
        s
    };
    if body.len() == 0 || !all_digits(body) {
        None
    } else if digits_value(body) > usize::MAX {
        None
    } else {
        Some(digits_value(body))
    }
}

/// The input without its leading and trailing whitespace.
pub open spec fn trim(s: Seq<u8>) -> Seq<u8>
    decreases s.len(),
{
    if s.len() == 0 {
        s
    } else if is_rle_space(s.first()) {
        trim(s.skip(1))
    } else if is_rle_space(s.last()) {
        trim(s.take(s.len() - 1))
    } else {
        s
    }
}

/// Every byte of an all-digit string is a digit.
proof fn lemma_all_digits_at(s: Seq<u8>, k: int)
    requires
        all_digits(s),
        0 <= k < s.len(),
    ensures
        is_rle_digit(s[k]),
    decreases s.len(),
{
    if k < s.len() - 1 {
        lemma_all_digits_at(s.drop_last(), k);
    }
}

/// A digit string's value only grows as digits are appended.
proof fn lemma_digits_value_extend_ge(s: Seq<u8>, t: Seq<u8>)
    requires
        s.len() <= t.len(),
        t.subrange(0, s.len() as int) == s,
        all_digits(t),
        digits_value(s) >= 0,
    ensures
        digits_value(t) >= digits_value(s),
    decreases t.len() - s.len(),
{
    if s.len() == t.len() {
        assert(t == s);
    } else {
        let t2 = t.drop_last();
        assert(t2.subrange(0, s.len() as int) == t.subrange(0, s.len() as int));
        lemma_digits_value_extend_ge(s, t2);
        assert(digits_value(t) == digits_value(t2) * 10 + (t.last() - 48));
    }
}

/// Find the first `sep` in `s` starting at `from`.
fn find_byte_exec(s: &[u8], sep: u8, from: usize) -> (r: usize)
    requires
        from <= s@.len(),
    ensures
        r == find_byte(s@, sep, from as int),
        from <= r <= s@.len(),
        r < s@.len() ==> s@[r as int] == sep,
{
    let mut i = from;
    while i < s.len()
        invariant
            from <= i <= s@.len(),
            find_byte(s@, sep, from as int) == find_byte(s@, sep, i as int),
        decreases s@.len() - i,
    {
        if s[i] == sep {
            return i;
        }
        i += 1;
    }
    i
}

/// Whether the byte is whitespace.
fn rle_space(c: u8) -> (r: bool)
    ensures
        r == is_rle_space(c),
{
    c == 32 || c == 9 || c == 10 || c == 11 || c == 12 || c == 13
}

/// Strip leading and trailing whitespace from a byte slice.
fn trim_exec<'a>(s: &'a [u8]) -> (r: &'a [u8])
    ensures
        r@ == trim(s@),
{
    let mut lo: usize = 0;
    let mut hi: usize = s.len();
    proof {
        assert(s@.subrange(0, s@.len() as int) =~= s@);
    }
    while lo < hi && rle_space(s[lo])
        invariant
            0 <= lo <= hi <= s@.len(),
            trim(s@) == trim(s@.subrange(lo as int, hi as int)),
        decreases hi - lo,
    {
        proof {
            assert(s@.subrange(lo as int, hi as int).skip(1) =~= s@.subrange(
                lo as int + 1,
                hi as int,
            ));
        }
        lo += 1;
    }
    while hi > lo && rle_space(s[hi - 1])
        invariant
            0 <= lo <= hi <= s@.len(),
            trim(s@) == trim(s@.subrange(lo as int, hi as int)),
            lo < hi ==> !is_rle_space(s@[lo as int]),
        decreases hi - lo,
    {
        proof {
            let sub = s@.subrange(lo as int, hi as int);
            assert(sub.take(sub.len() - 1) =~= s@.subrange(lo as int, hi as int - 1));
        }
        hi -= 1;
    }
    vstd::slice::slice_subrange(s, lo, hi)
}

/// Parse an unsigned machine integer, as the header values use it.
fn parse_usize_exec(s: &[u8]) -> (r: Option<usize>)
    ensures
        match r {
            Some(n) => parse_usize(s@) == Some(n as int),
            None => parse_usize(s@) is None,
        },
{
    let start: usize = if s.len() > 0 && s[0] == 43 {
        1
    } else {
        0
    };
    let ghost body: Seq<u8> = if start == 1 {
        s@.skip(1)
    } else {
        s@
    };
    proof {
        assert(body =~= s@.subrange(start as int, s@.len() as int));
    }
    if s.len() == start {
        return None;
    }
    let mut acc: usize = 0;
    let mut i = start;
    while i < s.len()
        invariant
            start <= i <= s@.len(),
            start <= 1,
            body == (if s@.len() > 0 && s@[0] == 43 {
                s@.skip(1)
            } else {
                s@
            }),
            body =~= s@.subrange(start as int, s@.len() as int),
            all_digits(s@.subrange(start as int, i as int)),
            acc == digits_value(s@.subrange(start as int, i as int)),
        decreases s@.len() - i,
    {
        let c = s[i];
        if c < 48 || c > 57 {
            proof {
                if all_digits(body) {
                    lemma_all_digits_at(body, i - start as int);
                }
            }
            return None;
        }
        let wide: u128 = acc as u128 * 10 + (c - 48) as u128;
        proof {
            let prefix = s@.subrange(start as int, i as int);
            let prefix2 = s@.subrange(start as int, i as int + 1);
            assert(prefix2.drop_last() =~= prefix);
            assert(digits_value(prefix2) == wide);
            if wide > usize::MAX as u128 && all_digits(body) {
                assert(body.subrange(0, prefix2.len() as int) =~= prefix2);
                lemma_digits_value_extend_ge(prefix2, body);
            }
        }
        if wide > usize::MAX as u128 {
            return None;
        }
        acc = wide as usize;
        i += 1;
    }
    proof {
        assert(s@.subrange(start as int, i as int) == body);
    }
    Some(acc)
}

/// `find_byte` never looks backwards and never runs past the end.
proof fn lemma_find_byte_bounds(s: Seq<u8>, sep: u8, from: int)
    requires
        0 <= from <= s.len(),
    ensures
        from <= find_byte(s, sep, from) <= s.len(),
    decreases s.len() - from,
{
    if from < s.len() && s[from] != sep {
        lemma_find_byte_bounds(s, sep, from + 1);
    }
}

/// The end of the line starting at `i`: the next newline, or the text's end.
pub open spec fn line_end(text: Seq<u8>, i: int) -> int {
    find_byte(text, 10, i)
}

/// The content of the line starting at `i`, one trailing carriage return
/// stripped.
pub open spec fn line_content(text: Seq<u8>, i: int) -> Seq<u8> {
    let e = line_end(text, i);
    if e - 1 >= i && text[e - 1] == 13 {
        text.subrange(i, e - 1)
    } else {
        text.subrange(i, e)
    }
}

/// Where the header line starts, scanning from `i`: every line before it
/// starts with `#`, and a text whose every line is a comment has none.
pub open spec fn header_pos(text: Seq<u8>, i: int) -> Option<int>
    decreases text.len() - i + 1,
        via header_pos_decreases
{
    if i < 0 || i >= text.len() {
        None
    } else if line_content(text, i).len() > 0 && line_content(text, i)[0] == 35 {
        header_pos(text, line_end(text, i) + 1)
    } else {
        Some(i)
    }
}

#[via_fn]
proof fn header_pos_decreases(text: Seq<u8>, i: int) {
    if 0 <= i < text.len() {
        lemma_find_byte_bounds(text, 10, i);
    }
}

/// One `name = value` header section, with `name` a single letter; text
/// after a second `=` is ignored, as taking only the first two pieces of a
/// split leaves it.
pub open spec fn parse_section(sec: Seq<u8>, name: u8) -> Option<int> {
    let q1 = find_byte(sec, 61, 0);
    if q1 >= sec.len() {
        None
    } else if trim(sec.subrange(0, q1)) == seq![name] {
        parse_usize(trim(sec.subrange(q1 + 1, find_byte(sec, 61, q1 + 1))))
    } else {
        None
    }
}

/// The header line `x = <width>, y = <height>`; later sections (such as a
/// rule) are ignored.
pub open spec fn parse_header(line: Seq<u8>) -> Option<(int, int)> {
    let p1 = find_byte(line, 44, 0);
    if p1 >= line.len() {
        None
    } else {
        match (
            parse_section(line.subrange(0, p1), 120),
            parse_section(line.subrange(p1 + 1, find_byte(line, 44, p1 + 1)), 121),
        ) {
            (Some(w), Some(h)) => Some((w, h)),
            _ => None,
        }
    }
}

/// Parse one `name = value` header section.
fn parse_section_exec(sec: &[u8], name: u8) -> (r: Option<usize>)
    ensures
        match r {
            Some(n) => parse_section(sec@, name) == Some(n as int),
            None => parse_section(sec@, name) is None,
        },
{
    let q1 = find_byte_exec(sec, 61, 0);
    if q1 >= sec.len() {
        return None;
    }
    let nm = trim_exec(vstd::slice::slice_subrange(sec, 0, q1));
    if !(nm.len() == 1 && nm[0] == name) {
        proof {
            assert(nm@ != seq![name]);
        }
        return None;
    }
    proof {
        assert(nm@ =~= seq![name]);
    }
    let q2 = find_byte_exec(sec, 61, q1 + 1);
    let val = trim_exec(vstd::slice::slice_subrange(sec, q1 + 1, q2));
    parse_usize_exec(val)
}

/// Parse the header line.
fn parse_header_exec(line: &[u8]) -> (r: Option<(usize, usize)>)
    ensures
        match r {
            Some(p) => parse_header(line@) == Some((p.0 as int, p.1 as int)),
            None => parse_header(line@) is None,
        },
{
    let p1 = find_byte_exec(line, 44, 0);
    if p1 >= line.len() {
        return None;
    }
    let w = match parse_section_exec(vstd::slice::slice_subrange(line, 0, p1), 120) {
        Some(w) => w,
        None => {
            return None;
        },
    };
    let p2 = find_byte_exec(line, 44, p1 + 1);
    let h = match parse_section_exec(vstd::slice::slice_subrange(line, p1 + 1, p2), 121) {
        Some(h) => h,
        None => {
            return None;
        },
    };
    Some((w, h))
}

/// The decoder's state between bytes: the cells decoded so far, the pending
/// run-count digits, how many cells the current row holds, and whether the
/// `!` terminator has been seen.
pub struct RleMachine {
    pub cells: Seq<bool>,
    pub digits: Seq<u8>,
    pub row_len: int,
    pub done: bool,
}

/// The decoder's state before any byte.
pub open spec fn rle_machine_init() -> RleMachine {
    RleMachine { cells: Seq::empty(), digits: Seq::empty(), row_len: 0, done: false }
}

/// A pending run count: an empty digit string, or one whose value does not
/// fit in a machine word, counts as one.
pub open spec fn run_count(digits: Seq<u8>) -> int {
    if digits.len() == 0 || digits_value(digits) > usize::MAX {
        1
    } else {
        digits_value(digits)
    }
}

/// One byte of the cell data: `b` and `o` append a run of dead or live
/// cells, `$` and `!` pad the row to the full width (rejecting a row that
/// is already too long), digits accumulate a run count, whitespace is
/// skipped, and anything else is rejected. After `!` the rest is ignored.
pub open spec fn rle_data_step(m: RleMachine, c: u8, width: int) -> Result<RleMachine, RleError> {
    if m.done {
        Ok(m)
    } else if c == 98 || c == 111 {
        let n = run_count(m.digits);
        if m.row_len + n > usize::MAX {
            Err(RleError::TooLarge)
        } else {
            Ok(
                RleMachine {
                    cells: m.cells + Seq::new(n as nat, |j: int| c == 111),
                    digits: Seq::empty(),
                    row_len: m.row_len + n,
                    done: false,
                },
            )
        }
    } else if c == 36 || c == 33 {
        if m.row_len > width {
            Err(RleError::RowTooLong)
        } else {
            Ok(
                RleMachine {
                    cells: m.cells + Seq::new((width - m.row_len) as nat, |j: int| false),
                    digits: Seq::empty(),
                    row_len: 0,
                    done: c == 33,
                },
            )
        }
    } else if is_rle_digit(c) {
        Ok(
            RleMachine {
                cells: m.cells,
                digits: m.digits.push(c),
                row_len: m.row_len,
                done: m.done,
            },
        )
    } else if is_rle_space(c) {
        Ok(m)
    } else {
        Err(RleError::BadCharacter)
    }
}

/// The decoder run over the bytes from position `i` on.
pub open spec fn rle_data_run(text: Seq<u8>, i: int, m: RleMachine, width: int) -> Result<
    RleMachine,
    RleError,
>
    decreases text.len() - i,
{
    if i < 0 || i >= text.len() {
        Ok(m)
    } else {
        match rle_data_step(m, text[i], width) {
            Ok(m2) => rle_data_run(text, i + 1, m2, width),
            Err(e) => Err(e),
        }
    }
}

/// Once the terminator has been seen, the rest of the text changes nothing.
proof fn lemma_run_done(text: Seq<u8>, i: int, m: RleMachine, width: int)
    requires
        m.done,
    ensures
        rle_data_run(text, i, m, width) == Ok::<RleMachine, RleError>(m),
    decreases text.len() - i,
{
    if 0 <= i < text.len() {
        lemma_run_done(text, i + 1, m, width);
    }
}

/// What loading an RLE pattern yields: the decoded cells padded out to the
/// header's full `width x height` extent, and the width, or the first fault
/// found. A pattern that decodes to more cells than the header promises is
/// rejected, as is an extent beyond the machine's address range.
pub open spec fn rle_parse(text: Seq<u8>) -> Result<(Seq<bool>, int), RleError> {
    match header_pos(text, 0) {
        None => Err(RleError::MissingHeader),
        Some(h) => match parse_header(line_content(text, h)) {
            None => Err(RleError::BadHeader),
            Some(wh) => match rle_data_run(text, line_end(text, h) + 1, rle_machine_init(), wh.0) {
                Err(e) => Err(e),
                Ok(m) => if wh.0 * wh.1 > usize::MAX {
                    Err(RleError::TooLarge)
                } else if m.cells.len() > wh.0 * wh.1 {
                    Err(RleError::TooLarge)
                } else {
                    Ok(
                        (
                            m.cells + Seq::new((wh.0 * wh.1 - m.cells.len()) as nat, |j: int| false),
                            wh.0,
                        ),
                    )
                },
            },
        },
    }
}

/// Append `n` copies of one cell value.
fn push_repeat(data: &mut Vec<bool>, val: bool, n: usize)
    ensures
        final(data)@ == old(data)@ + Seq::new(n as nat, |j: int| val),
{
    proof {
        assert(old(data)@ + Seq::new(0, |k: int| val) =~= old(data)@);
    }
    let mut j: usize = 0;
    while j < n
        invariant
            j <= n,
            data@ == old(data)@ + Seq::new(j as nat, |k: int| val),
        decreases n - j,
    {
        data.push(val);
        proof {
            assert(old(data)@ + Seq::new((j + 1) as nat, |k: int| val) =~= (old(data)@ + Seq::new(
                j as nat,
                |k: int| val,
            )).push(val));
        }
        j += 1;
    }
    proof {
        assert(data@ =~= old(data)@ + Seq::new(n as nat, |j: int| val));
    }
}

/// Find the header line: the first line that is not a `#` comment.
fn find_header_exec(text: &[u8]) -> (r: Option<usize>)
    ensures
        match r {
            Some(h) => header_pos(text@, 0) == Some(h as int) && h < text@.len(),
            None => header_pos(text@, 0) is None,
        },
{
    let mut hp: usize = 0;
    while hp < text.len()
        invariant
            0 <= hp <= text@.len(),
            header_pos(text@, 0) == header_pos(text@, hp as int),
        decreases text@.len() - hp,
    {
        let e = find_byte_exec(text, 10, hp);
        let le = if e > hp && text[e - 1] == 13 {
            e - 1
        } else {
            e
        };
        proof {
            assert(line_content(text@, hp as int) =~= text@.subrange(hp as int, le as int));
        }
        if !(le > hp && text[hp] == 35) {
            return Some(hp);
        }
        if e >= text.len() {
            proof {
                assert(header_pos(text@, e as int + 1) is None);
            }
            return None;
        }
        hp = e + 1;
    }
    None
}

/// Decode the cell data that follows the header.
fn parse_data_exec(text: &[u8], from: usize, width: usize) -> (r: Result<Vec<bool>, RleError>)
    requires
        from <= text@.len(),
    ensures
        match r {
            Ok(cells) => rle_data_run(text@, from as int, rle_machine_init(), width as int)
                matches Ok(m) && m.cells == cells@,
            Err(e) => rle_data_run(text@, from as int, rle_machine_init(), width as int)
                == Err::<RleMachine, RleError>(e),
        },
{
    let mut data: Vec<bool> = Vec::new();
    let mut x: usize = 0;
    let mut acc: usize = 0;
    let mut digits_empty: bool = true;
    let mut overflowed: bool = false;
    let mut stop: bool = false;
    let ghost mut m = rle_machine_init();
    let mut i = from;
    proof {
        assert(data@ =~= m.cells);
        assert(m.digits =~= Seq::<u8>::empty());
    }
    while i < text.len() && !stop
        invariant
            from <= i <= text@.len(),
            data@ == m.cells,
            x == m.row_len,
            digits_empty == (m.digits.len() == 0),
            all_digits(m.digits),
            digits_value(m.digits) >= 0,
            overflowed == (digits_value(m.digits) > usize::MAX),
            !overflowed ==> acc == digits_value(m.digits),
            stop == m.done,
            rle_data_run(text@, from as int, rle_machine_init(), width as int) == rle_data_run(
                text@,
                i as int,
                m,
                width as int,
            ),
        decreases text@.len() - i,
    {
        let c = text[i];
        let ghost m0 = m;
        if c == 98 || c == 111 {
            let n = if digits_empty || overflowed {
                1
            } else {
                acc
            };
            proof {
                assert(n == run_count(m0.digits));
            }
            if n > usize::MAX - x {
                return Err(RleError::TooLarge);
            }
            x += n;
            push_repeat(&mut data, c == 111, n);
            digits_empty = true;
            overflowed = false;
            acc = 0;
            proof {
                m = RleMachine {
                    cells: m0.cells + Seq::new(n as nat, |j: int| c == 111),
                    digits: Seq::empty(),
                    row_len: m0.row_len + n,
                    done: false,
                };
                assert(rle_data_step(m0, c, width as int) == Ok::<RleMachine, RleError>(m));
            }
        } else if c == 36 || c == 33 {
            if x > width {
                return Err(RleError::RowTooLong);
            }
            let fill = width - x;
            push_repeat(&mut data, false, fill);
            x = 0;
            digits_empty = true;
            overflowed = false;
            acc = 0;
            stop = c == 33;
            proof {
                m = RleMachine {
                    cells: m0.cells + Seq::new(fill as nat, |j: int| false),
                    digits: Seq::empty(),
                    row_len: 0,
                    done: c == 33,
                };
                assert(rle_data_step(m0, c, width as int) == Ok::<RleMachine, RleError>(m));
            }
        } else if c >= 48 && c <= 57 {
            if !overflowed {
                let wide: u128 = acc as u128 * 10 + (c - 48) as u128;
                if wide > usize::MAX as u128 {
                    overflowed = true;
                } else {
                    acc = wide as usize;
                }
            }
            digits_empty = false;
            proof {
                m = RleMachine {
                    cells: m0.cells,
                    digits: m0.digits.push(c),
                    row_len: m0.row_len,
                    done: m0.done,
                };
                assert(m.digits.drop_last() =~= m0.digits);
                assert(digits_value(m.digits) == digits_value(m0.digits) * 10 + (c - 48));
                assert(rle_data_step(m0, c, width as int) == Ok::<RleMachine, RleError>(m));
            }
        } else if c == 32 || c == 9 || c == 10 || c == 11 || c == 12 || c == 13 {
            proof {
                assert(rle_data_step(m0, c, width as int) == Ok::<RleMachine, RleError>(m));
            }
        } else {
            return Err(RleError::BadCharacter);
        }
        i += 1;
    }
    proof {
        if stop {
            lemma_run_done(text@, i as int, m, width as int);
        }
    }
    Ok(data)
}

/// Load an RLE pattern from its raw bytes: the decoded cells, padded to the
/// header's full `width x height` extent, together with the width.
pub fn load_rle(text: &[u8]) -> (r: Result<(Vec<bool>, usize), RleError>)
    ensures
        match r {
            Ok(p) => rle_parse(text@) == Ok::<(Seq<bool>, int), RleError>((p.0@, p.1 as int)),
            Err(e) => rle_parse(text@) == Err::<(Seq<bool>, int), RleError>(e),
        },
{
    let h = match find_header_exec(text) {
        Some(h) => h,
        None => {
            return Err(RleError::MissingHeader);
        },
    };
    let e = find_byte_exec(text, 10, h);
    let le = if e > h && text[e - 1] == 13 {
        e - 1
    } else {
        e
    };
    let line = vstd::slice::slice_subrange(text, h, le);
    proof {
        assert(line@ =~= line_content(text@, h as int));
    }
    let wh = match parse_header_exec(line) {
        Some(p) => p,
        None => {
            return Err(RleError::BadHeader);
        },
    };
    let width = wh.0;
    let height = wh.1;
    let d = if e >= text.len() {
        text.len()
    } else {
        e + 1
    };
    proof {
        assert(rle_data_run(text@, line_end(text@, h as int) + 1, rle_machine_init(), width as int)
            == rle_data_run(text@, d as int, rle_machine_init(), width as int));
    }
    let mut data = match parse_data_exec(text, d, width) {
        Ok(c) => c,
        Err(err) => {
            return Err(err);
        },
    };
    let total = match width.checked_mul(height) {
        Some(t) => t,
        None => {
            return Err(RleError::TooLarge);
        },
    };
    if data.len() > total {
        return Err(RleError::TooLarge);
    }
    let pad = total - data.len();
    let ghost cells_before = data@;
    push_repeat(&mut data, false, pad);
    proof {
        assert(data@ =~= cells_before + Seq::new(
            (width as int * height as int - cells_before.len()) as nat,
            |j: int| false,
        ));
    }
    Ok((data, width))
}

/// One cell of a cube that holds a `w x h` pattern in the top-left corner
/// of its first face, every other cell dead. The cube's faces have side
/// `side`, and `i` is a linear cell address.
pub open spec fn pattern_cube_cell(cells: Seq<bool>, w: int, h: int, side: int, i: int) -> bool {
    i < side * side && (i % side) < w && (i / side) < h && cells[(i / side) * w + (i % side)]
}

/// A whole cube buffer holding a pattern on its first face.
pub open spec fn cube_from_pattern(cells: Seq<bool>, w: int, h: int, side: int) -> Seq<bool> {
    Seq::new((6 * side * side) as nat, |i: int| pattern_cube_cell(cells, w, h, side, i))
}

/// What importing an RLE pattern onto a cube yields: the decoded pattern on
/// the first face of a cube whose side is the larger of the pattern's width
/// and height, the rest dead. A pattern of width zero has no cube to live
/// on, and one whose cube would outgrow the machine's address range is
/// rejected.
pub open spec fn rle_cube_import(text: Seq<u8>) -> Result<(Seq<bool>, int), RleError> {
    match rle_parse(text) {
        Err(e) => Err(e),
        Ok(pw) => {
            let w = pw.1;
            if w == 0 {
                Err(RleError::BadHeader)
            } else {
                let h = pw.0.len() as int / w;
                let side: int = if w >= h {
                    w
                } else {
                    h
                };
                if 6 * side * side > usize::MAX {
                    Err(RleError::TooLarge)
                } else {
                    Ok((cube_from_pattern(pw.0, w, h, side), side))
                }
            }
        },
    }
}

/// Import an RLE pattern onto one face of a cube, the remaining cells dead.
pub fn import_golcube_rle(text: &[u8]) -> (r: Result<crate::grid::GolCube, RleError>)
    ensures
        match r {
            Ok(cube) => rle_cube_import(text@) == Ok::<(Seq<bool>, int), RleError>(
                (cube.data@, cube.width as int),
            ) && cube.well_formed(),
            Err(e) => rle_cube_import(text@) == Err::<(Seq<bool>, int), RleError>(e),
        },
{
    let (data, w) = match load_rle(text) {
        Ok(p) => p,
        Err(e) => {
            return Err(e);
        },
    };
    if w == 0 {
        return Err(RleError::BadHeader);
    }
    let h = data.len() / w;
    let side = if w >= h {
        w
    } else {
        h
    };
    proof {
        vstd::arithmetic::div_mod::lemma_fundamental_div_mod(data@.len() as int, w as int);
        vstd::arithmetic::div_mod::lemma_mod_pos_bound(data@.len() as int, w as int);
        assert((h as int) * (w as int) <= data@.len());
    }
    let ss = match side.checked_mul(side) {
        Some(t) => t,
        None => {
            proof {
                assert(6 * (side as int) * (side as int) > usize::MAX) by (nonlinear_arith)
                    requires
                        (side as int) * (side as int) > usize::MAX as int,
                ;
            }
            return Err(RleError::TooLarge);
        },
    };
    let total = match ss.checked_mul(6) {
        Some(t) => t,
        None => {
            proof {
                assert(6 * (side as int) * (side as int) == (ss as int) * 6) by (nonlinear_arith)
                    requires
                        ss == (side as int) * (side as int),
                ;
            }
            return Err(RleError::TooLarge);
        },
    };
    proof {
        assert(6 * (side as int) * (side as int) == (ss as int) * 6) by (nonlinear_arith)
            requires
                ss == (side as int) * (side as int),
        ;
    }
    let mut out: Vec<bool> = Vec::new();
    let mut r: usize = 0;
    while r < h
        invariant
            r <= h,
            w >= 1,
            h == data@.len() as int / w as int,
            (h as int) * (w as int) <= data@.len(),
            data@.len() <= usize::MAX,
            side as int == (if w >= h {
                w as int
            } else {
                h as int
            }),
            total == 6 * (side as int) * (side as int),
            out@.len() == r * side,
            forall|i: int|
                0 <= i < out@.len() ==> out@[i] == pattern_cube_cell(
                    data@,
                    w as int,
                    h as int,
                    side as int,
                    i,
                ),
        decreases h - r,
    {
        proof {
            assert((r as int) * (side as int) + (side as int) <= (h as int) * (side as int) && (
            h as int) * (side as int) <= 6 * (side as int) * (side as int) && (r as int) * (
            w as int) + (w as int) <= (h as int) * (w as int)) by (nonlinear_arith)
                requires
                    r < h,
                    w >= 1,
                    h <= side,
                    w <= side,
            ;
        }
        let mut u: usize = 0;
        while u < side
            invariant
                u <= side,
                r < h,
                w >= 1,
                (h as int) * (w as int) <= data@.len(),
                data@.len() <= usize::MAX,
                (r as int) * (side as int) + (side as int) <= total,
                (r as int) * (w as int) + (w as int) <= (h as int) * (w as int),
                side as int == (if w >= h {
                    w as int
                } else {
                    h as int
                }),
                out@.len() == r * side + u,
                forall|i: int|
                    0 <= i < out@.len() ==> out@[i] == pattern_cube_cell(
                        data@,
                        w as int,
                        h as int,
                        side as int,
                        i,
                    ),
            decreases side - u,
        {
            let val = if u < w {
                *vstd::slice::slice_index_get(data.as_slice(), r * w + u)
            } else {
                false
            };
            out.push(val);
            proof {
                let i = (r as int) * (side as int) + u;
                vstd::arithmetic::div_mod::lemma_fundamental_div_mod_converse(
                    i,
                    side as int,
                    r as int,
                    u as int,
                );
                assert(i < (side as int) * (side as int)) by (nonlinear_arith)
                    requires
                        r < h,
                        h <= side,
                        u < side,
                        i == (r as int) * (side as int) + u,
                ;
                assert(out@[i] == pattern_cube_cell(data@, w as int, h as int, side as int, i));
            }
            u += 1;
        }
        proof {
            assert(((r + 1) as int) * (side as int) == (r as int) * (side as int) + (side as int))
                by (nonlinear_arith);
        }
        r += 1;
    }
    proof {
        assert((h as int) * (side as int) <= 6 * (side as int) * (side as int)) by (nonlinear_arith)
            requires
                h <= side,
                0 <= side,
        ;
    }
    let ghost before = out@;
    let pad = total - out.len();
    push_repeat(&mut out, false, pad);
    proof {
        assert forall|i: int| 0 <= i < out@.len() implies out@[i] == pattern_cube_cell(
            data@,
            w as int,
            h as int,
            side as int,
            i,
        ) by {
            if i >= before.len() {
                vstd::arithmetic::div_mod::lemma_div_is_ordered(
                    (h as int) * (side as int),
                    i,
                    side as int,
                );
                vstd::arithmetic::div_mod::lemma_fundamental_div_mod_converse(
                    (h as int) * (side as int),
                    side as int,
                    h as int,
                    0,
                );
            }
        }
        assert(out@ =~= cube_from_pattern(data@, w as int, h as int, side as int));
    }
    Ok(crate::grid::GolCube { data: out, width: side })
}

} // verus!
