//! Scanning a request chunk for a `content-length` header line.
//!
//! The wire protocol consumed by the reactor is deliberately small: the byte
//! stream is scanned, line by line, for the first line that starts with
//! `content-length: ` (compared case-insensitively on ASCII letters), and the
//! rest of that line is read as a decimal integer. No other header, method or
//! path is interpreted.

use vstd::prelude::*;

verus! {

/// ASCII lower-casing of a single byte: upper-case letters move down by 32,
/// every other byte is unchanged.
pub open spec fn lower(b: u8) -> u8 {
    if 65 <= b && b <= 90 {
        (b + 32) as u8
    } else {
        b
    }
}

/// Executable ASCII lower-casing, exactly `lower`.
pub fn lower_byte(b: u8) -> (r: u8)
    ensures
        r == lower(b),
{
    if 65 <= b && b <= 90 {
        b + 32
    } else {
        b
    }
}

/// The ASCII digits `'0'` through `'9'`.
pub open spec fn is_digit(b: u8) -> bool {
    48 <= b && b <= 57
}

pub open spec fn all_digits(s: Seq<u8>) -> bool {
    forall|i: int| 0 <= i < s.len() ==> is_digit(#[trigger] s[i])
}

/// The value of a sequence of ASCII digits read as a decimal numeral,
/// most significant digit first.
pub open spec fn dec_value(s: Seq<u8>) -> nat
    decreases s.len(),
{
    if s.len() == 0 {
        0
    } else {
        (dec_value(s.drop_last()) * 10 + (s.last() - 48)) as nat
    }
}

/// A byte sequence is a well-formed length field when it is a non-empty run
/// of digits whose value fits in `usize`.
pub open spec fn valid_number(s: Seq<u8>) -> bool {
    &&& s.len() > 0
    &&& all_digits(s)
    &&& dec_value(s) <= usize::MAX
}

/// Reading one more digit multiplies the value of the prefix by ten; hence a
/// digit run's value dominates the value of any of its prefixes.
proof fn lemma_dec_value_prefix_le(s: Seq<u8>, i: int)
    requires
        0 <= i <= s.len(),
        all_digits(s),
    ensures
        dec_value(s.take(i)) <= dec_value(s),
    decreases s.len() - i,
{
    if i == s.len() {
        assert(s.take(i) =~= s);
    } else {
        lemma_dec_value_prefix_le(s, i + 1);
        assert(s.take(i + 1).drop_last() =~= s.take(i));
        assert(s.take(i + 1).last() == s[i]);
        assert(is_digit(s[i]));
        assert(dec_value(s.take(i + 1)) == dec_value(s.take(i)) * 10 + (s[i] - 48));
        assert(dec_value(s.take(i)) <= dec_value(s.take(i)) * 10) by (nonlinear_arith);
    }
}

/// The sixteen bytes of `"content-length: "`, the header prefix the scanner
/// looks for (already lower-case, trailing space included).
pub open spec fn cl_prefix() -> Seq<u8> {
    seq![
        99u8, 111u8, 110u8, 116u8, 101u8, 110u8, 116u8, 45u8,
        108u8, 101u8, 110u8, 103u8, 116u8, 104u8, 58u8, 32u8,
    ]
}

/// Executable copy of `cl_prefix`.
pub fn make_cl_prefix() -> (v: Vec<u8>)
    ensures
        v@ == cl_prefix(),
{
    let v: Vec<u8> = vec![
        99u8, 111u8, 110u8, 116u8, 101u8, 110u8, 116u8, 45u8,
        108u8, 101u8, 110u8, 103u8, 116u8, 104u8, 58u8, 32u8,
    ];
    proof {
        assert(v@ =~= cl_prefix());
    }
    v
}

/// A line announces the body length when, lower-cased, it starts with
/// `content-length: `.
pub open spec fn is_cl_line(line: Seq<u8>) -> bool {
    &&& line.len() >= cl_prefix().len()
    &&& forall|i: int| 0 <= i < cl_prefix().len() ==> lower(#[trigger] line[i]) == cl_prefix()[i]
}

/// The length field of a header line: what follows the sixteen-byte prefix.
pub open spec fn cl_payload(line: Seq<u8>) -> Seq<u8> {
    line.skip(cl_prefix().len() as int)
}

/// Index of the first line feed in `s`, or `-1` when there is none.
pub open spec fn first_nl_index(s: Seq<u8>) -> int
    decreases s.len(),
{
    if s.len() == 0 {
        -1
    } else if s[0] == 10 {
        0
    } else {
        let r = first_nl_index(s.skip(1));
        if r < 0 {
            -1
        } else {
            r + 1
        }
    }
}

proof fn lemma_first_nl_index_bounds(s: Seq<u8>)
    ensures
        -1 <= first_nl_index(s) < s.len(),
        first_nl_index(s) >= 0 ==> s[first_nl_index(s)] == 10,
    decreases s.len(),
{
    if s.len() > 0 && s[0] != 10 {
        lemma_first_nl_index_bounds(s.skip(1));
    }
}

/// If the bytes before position `m` are all ordinary and `s[m]` is a line
/// feed, then `m` is the first line feed.
proof fn lemma_first_nl_index_found(s: Seq<u8>, m: int)
    requires
        0 <= m < s.len(),
        s[m] == 10,
        forall|k: int| 0 <= k < m ==> s[k] != 10,
    ensures
        first_nl_index(s) == m,
    decreases m,
{
    if m > 0 {
        lemma_first_nl_index_found(s.skip(1), m - 1);
    }
}

/// A sequence without a line feed has no first one.
proof fn lemma_first_nl_index_none(s: Seq<u8>)
    requires
        forall|k: int| 0 <= k < s.len() ==> s[k] != 10,
    ensures
        first_nl_index(s) == -1,
    decreases s.len(),
{
    if s.len() > 0 {
        lemma_first_nl_index_none(s.skip(1));
    }
}

/// A carriage return left at the end of a line by a `\r\n` terminator is not
/// part of the line.
pub open spec fn strip_cr(line: Seq<u8>) -> Seq<u8> {
    if line.len() > 0 && line.last() == 13 {
        line.drop_last()
    } else {
        line
    }
}

/// The lines of a byte stream: split at each line feed, drop a carriage
/// return that immediately precedes a line feed, and do not produce a final
/// empty line for a stream that ends with a line feed. A final line without
/// a terminator keeps any trailing carriage return.
pub open spec fn line_split(s: Seq<u8>) -> Seq<Seq<u8>>
    decreases s.len(),
{
    if s.len() == 0 {
        Seq::empty()
    } else {
        let i = first_nl_index(s);
        if i < 0 {
            seq![s]
        } else if 0 <= i < s.len() {
            seq![strip_cr(s.take(i))] + line_split(s.skip(i + 1))
        } else {
            Seq::empty()
        }
    }
}

/// What scanning a chunk for a length header yields.
#[derive(Clone, Copy, PartialEq, Eq, Structural, Debug)]
pub enum ScanResult {
    /// No line starts with the header prefix.
    NoHeader,
    /// The first line with the prefix carries this number.
    Found(usize),
    /// The first line with the prefix does not carry a well-formed number.
    Malformed,
}

/// Scan a list of lines for the first `content-length` line and read its
/// field.
pub open spec fn scan_lines(lines: Seq<Seq<u8>>) -> ScanResult
    decreases lines.len(),
{
    if lines.len() == 0 {
        ScanResult::NoHeader
    } else if is_cl_line(lines[0]) {
        if valid_number(cl_payload(lines[0])) {
            ScanResult::Found(dec_value(cl_payload(lines[0])) as usize)
        } else {
            ScanResult::Malformed
        }
    } else {
        scan_lines(lines.skip(1))
    }
}

/// The length header a chunk announces, if any: its lines are scanned in
/// order for the first one that starts with `content-length: `, and that
/// line's field is read as a decimal numeral.
pub open spec fn spec_scan(chunk: Seq<u8>) -> ScanResult {
    scan_lines(line_split(chunk))
}

/// Read a decimal numeral. Returns its value exactly when the input is a
/// non-empty digit run whose value fits in `usize`; returns `None` otherwise.
pub fn parse_decimal(s: &[u8]) -> (r: Option<usize>)
    ensures
        match r {
            Some(v) => valid_number(s@) && v == dec_value(s@),
            None => !valid_number(s@),
        },
{
    let n = s.len();
    if n == 0 {
        return None;
    }
    let mut acc: usize = 0;
    let mut i: usize = 0;
    while i < n
        invariant
            0 <= i <= n,
            n == s@.len(),
            n > 0,
            all_digits(s@.take(i as int)),
            acc == dec_value(s@.take(i as int)),
        decreases n - i,
    {
        let b = s[i];
        if !(48 <= b && b <= 57) {
            assert(!is_digit(s@[i as int]));
            return None;
        }
        let d: usize = (b - 48) as usize;
        if acc > (usize::MAX - d) / 10 {
            proof {
                let t = s@.take(i as int + 1);
                assert(t.drop_last() =~= s@.take(i as int));
                assert(t.last() == s@[i as int]);
                assert(dec_value(t) == acc * 10 + d);
                assert(acc * 10 + d > usize::MAX) by (nonlinear_arith)
                    requires
                        acc > (usize::MAX - d) / 10,
                        d <= 9,
                ;
                if all_digits(s@) {
                    lemma_dec_value_prefix_le(s@, i as int + 1);
                }
            }
            return None;
        }
        proof {
            assert(acc * 10 + d <= usize::MAX) by (nonlinear_arith)
                requires
                    acc <= (usize::MAX - d) / 10,
                    d <= 9,
            ;
            let t = s@.take(i as int + 1);
            assert(t.drop_last() =~= s@.take(i as int));
            assert(t.last() == s@[i as int]);
        }
        acc = acc * 10 + d;
        i = i + 1;
    }
    proof {
        assert(s@.take(n as int) =~= s@);
    }
    Some(acc)
}

/// Decide whether one line starts with the header prefix, comparing
/// lower-cased bytes.
pub fn is_cl_line_exec(line: &[u8]) -> (b: bool)
    ensures
        b == is_cl_line(line@),
{
    let prefix = make_cl_prefix();
    if line.len() < 16 {
        return false;
    }
    let mut k: usize = 0;
    while k < 16
        invariant
            0 <= k <= 16,
            line@.len() >= 16,
            prefix@ == cl_prefix(),
            forall|l: int| 0 <= l < k ==> lower(#[trigger] line@[l]) == cl_prefix()[l],
        decreases 16 - k,
    {
        if lower_byte(line[k]) != prefix[k] {
            assert(lower(line@[k as int]) != cl_prefix()[k as int]);
            return false;
        }
        k = k + 1;
    }
    true
}

/// Scan a chunk of request bytes for a `content-length` header, exactly as
/// `spec_scan` describes: the first line starting with the prefix decides,
/// and its field must be a well-formed decimal numeral.
pub fn scan_content_length(chunk: &[u8]) -> (r: ScanResult)
    ensures
        r == spec_scan(chunk@),
{
    let n = chunk.len();
    let mut pos: usize = 0;
    proof {
        assert(chunk@.skip(0) =~= chunk@);
    }
    while pos < n
        invariant
            0 <= pos <= n,
            n == chunk@.len(),
            spec_scan(chunk@) == scan_lines(line_split(chunk@.skip(pos as int))),
        decreases n - pos,
    {
        let mut j: usize = pos;
        while j < n && chunk[j] != 10
            invariant
                pos <= j <= n,
                n == chunk@.len(),
                forall|k: int| pos <= k < j ==> chunk@[k] != 10,
            decreases n - j,
        {
            j = j + 1;
        }
        let terminated = j < n;
        let end: usize = if terminated && j > pos && chunk[j - 1] == 13 {
            j - 1
        } else {
            j
        };
        proof {
            let rest = chunk@.skip(pos as int);
            assert(rest.len() > 0);
            if terminated {
                assert(rest[j - pos as int] == 10);
                assert(forall|k: int| 0 <= k < j - pos as int ==> rest[k] != 10);
                lemma_first_nl_index_found(rest, j - pos as int);
                assert(rest.take(j - pos as int) =~= chunk@.subrange(pos as int, j as int));
                assert(strip_cr(rest.take(j - pos as int)) =~= chunk@.subrange(
                    pos as int,
                    end as int,
                ));
                assert(line_split(rest) == seq![strip_cr(rest.take(j - pos as int))] + line_split(
                    rest.skip(j - pos as int + 1),
                ));
                assert(rest.skip(j - pos as int + 1) =~= chunk@.skip(j as int + 1));
            } else {
                assert(forall|k: int| 0 <= k < rest.len() ==> rest[k] != 10);
                lemma_first_nl_index_none(rest);
                assert(line_split(rest) == seq![rest]);
                assert(rest =~= chunk@.subrange(pos as int, end as int));
            }
        }
        let line = vstd::slice::slice_subrange(chunk, pos, end);
        let ghost line_seq = chunk@.subrange(pos as int, end as int);
        assert(line_split(chunk@.skip(pos as int))[0] == line_seq);
        if is_cl_line_exec(line) {
            assert(scan_lines(line_split(chunk@.skip(pos as int))) == (
            if valid_number(cl_payload(line_seq)) {
                ScanResult::Found(dec_value(cl_payload(line_seq)) as usize)
            } else {
                ScanResult::Malformed
            }));
            let payload = vstd::slice::slice_subrange(chunk, pos + 16, end);
            proof {
                assert(payload@ =~= cl_payload(line_seq));
            }
            match parse_decimal(payload) {
                Some(v) => {
                    return ScanResult::Found(v);
                },
                None => {
                    return ScanResult::Malformed;
                },
            }
        }
        proof {
            let lines = line_split(chunk@.skip(pos as int));
            assert(!is_cl_line(lines[0]));
            assert(scan_lines(lines) == scan_lines(lines.skip(1)));
            if terminated {
                assert(lines.skip(1) =~= line_split(chunk@.skip(j as int + 1)));
            } else {
                assert(lines.skip(1) =~= Seq::<Seq<u8>>::empty());
                assert(line_split(chunk@.skip(n as int)) =~= Seq::<Seq<u8>>::empty());
                assert(scan_lines(lines.skip(1)) == scan_lines(line_split(chunk@.skip(n as int))));
            }
        }
        if terminated {
            pos = j + 1;
        } else {
            pos = n;
        }
    }
    proof {
        assert(chunk@.skip(pos as int) =~= Seq::<u8>::empty());
    }
    ScanResult::NoHeader
}

} // verus!
