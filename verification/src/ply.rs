//! The stored point cloud: a text header that ends in `end_header` and names
//! the number of vertices, then one 248-byte record for each vertex.

use vstd::prelude::*;
use vstd::slice::slice_subrange;
use crate::gaussian::{stored_words, RawGaussian, RAW_GAUSSIAN_SIZE};

verus! {

/// Why a point cloud could not be read.
#[derive(Clone, Copy, Debug, PartialEq, Eq, Structural)]
pub enum PlyError {
    /// No `end_header` line.
    MissingEndHeader,
    /// A byte of the header is not ASCII.
    HeaderNotAscii,
    /// No `element vertex` line in the header.
    MissingVertexCount,
    /// What follows `element vertex` is not a number that fits a `usize`.
    InvalidVertexCount,
    /// Fewer bytes follow the header than the vertices need.
    BodyTooSmall,
    /// More bytes follow the header than the vertices need.
    BodyTooLarge,
}

/// The bytes of `end_header`.
pub open spec fn end_header() -> Seq<u8> {
    seq![0x65u8, 0x6eu8, 0x64u8, 0x5fu8, 0x68u8, 0x65u8, 0x61u8, 0x64u8, 0x65u8, 0x72u8]
}

/// `end_header` and a line feed.
pub open spec fn end_header_lf() -> Seq<u8> {
    end_header().push(0x0au8)
}

/// `end_header`, a carriage return and a line feed.
pub open spec fn end_header_crlf() -> Seq<u8> {
    end_header().push(0x0du8).push(0x0au8)
}

/// The bytes of `element vertex ` with its closing space.
pub open spec fn vertex_prefix() -> Seq<u8> {
    seq![
        0x65u8, 0x6cu8, 0x65u8, 0x6du8, 0x65u8, 0x6eu8, 0x74u8, 0x20u8, 0x76u8, 0x65u8, 0x72u8,
        0x74u8, 0x65u8, 0x78u8, 0x20u8,
    ]
}

/// `needle` stands in `data` at `at`.
pub open spec fn occurs_at(data: Seq<u8>, needle: Seq<u8>, at: int) -> bool {
    0 <= at && at + needle.len() <= data.len() && data.subrange(at, at + needle.len()) == needle
}

/// A header terminator stands in `data` at `at`: `end_header` and its line
/// ending, a line feed alone or after a carriage return.
pub open spec fn terminator_at(data: Seq<u8>, at: int) -> bool {
    occurs_at(data, end_header_lf(), at) || occurs_at(data, end_header_crlf(), at)
}

/// A header terminator stands in `data` at `at`, and none before.
pub open spec fn first_terminator_at(data: Seq<u8>, at: int) -> bool {
    terminator_at(data, at) && forall|before: int|
        0 <= before < at ==> !terminator_at(data, before)
}

/// How many bytes the line ending of the terminator at `at` takes.
pub open spec fn line_ending_len(data: Seq<u8>, at: int) -> int {
    if occurs_at(data, end_header_crlf(), at) {
        2
    } else {
        1
    }
}

/// Where the header ends, and how many bytes its line ending takes: the first
/// position at which a terminator stands, of either form.
pub open spec fn header_end(data: Seq<u8>) -> Option<(int, int)> {
    if exists|at: int| first_terminator_at(data, at) {
        let at = choose|at: int| first_terminator_at(data, at);
        Some((at, line_ending_len(data, at)))
    } else {
        None
    }
}

/// White space: the space, the tab, the line feed, the vertical tab, the form
/// feed and the carriage return.
pub open spec fn is_space(b: u8) -> bool {
    b == 0x20 || (0x09 <= b && b <= 0x0d)
}

/// `s` without the white space it starts with.
pub open spec fn trim_start(s: Seq<u8>) -> Seq<u8>
    decreases s.len(),
{
    if s.len() > 0 && is_space(s[0]) {
        trim_start(s.skip(1))
    } else {
        s
    }
}

/// `s` without the white space it ends with.
pub open spec fn trim_end(s: Seq<u8>) -> Seq<u8>
    decreases s.len(),
{
    if s.len() > 0 && is_space(s.last()) {
        trim_end(s.drop_last())
    } else {
        s
    }
}

/// `s` without the white space at either end.
pub open spec fn trim(s: Seq<u8>) -> Seq<u8> {
    trim_end(trim_start(s))
}

/// The length of the first line of `s`: up to its first line feed, or all of
/// it.
pub open spec fn line_len(s: Seq<u8>) -> nat
    decreases s.len(),
{
    if s.len() == 0 || s[0] == 0x0a {
        0
    } else {
        1 + line_len(s.skip(1))
    }
}

/// `s` begins with `prefix`.
pub open spec fn starts_with(s: Seq<u8>, prefix: Seq<u8>) -> bool {
    prefix.len() <= s.len() && s.take(prefix.len() as int) == prefix
}

/// What follows `element vertex ` on the first line that, trimmed, begins with
/// it; itself trimmed.
pub open spec fn vertex_count_text(header: Seq<u8>) -> Option<Seq<u8>>
    decreases header.len(),
{
    let len = line_len(header);
    let line = trim(header.take(len as int));
    if starts_with(line, vertex_prefix()) {
        Some(trim(line.skip(vertex_prefix().len() as int)))
    } else if len < header.len() {
        vertex_count_text(header.skip(len as int + 1))
    } else {
        None
    }
}

/// A decimal digit.
pub open spec fn is_digit(b: u8) -> bool {
    0x30 <= b && b <= 0x39
}

/// Every byte of `s` is a decimal digit.
pub open spec fn all_digits(s: Seq<u8>) -> bool {
    forall|i: int| 0 <= i < s.len() ==> is_digit(#[trigger] s[i])
}

/// The number that the digits `s` write in base ten.
pub open spec fn digits_value(s: Seq<u8>) -> nat
    decreases s.len(),
{
    if s.len() == 0 {
        0
    } else {
        digits_value(s.drop_last()) * 10 + (s.last() - 0x30) as nat
    }
}

/// The digits of a number written as `s`: all of `s`, or what follows a
/// leading plus sign.
pub open spec fn digits_of(s: Seq<u8>) -> Seq<u8> {
    if s.len() > 0 && s[0] == 0x2b {
        s.skip(1)
    } else {
        s
    }
}

/// The number written as `s`: one or more decimal digits, which a plus sign
/// may precede.
pub open spec fn decimal_value(s: Seq<u8>) -> Option<nat> {
    if digits_of(s).len() > 0 && all_digits(digits_of(s)) {
        Some(digits_value(digits_of(s)))
    } else {
        None
    }
}

/// The vertex count that a header declares.
pub open spec fn vertex_count(header: Seq<u8>) -> Result<nat, PlyError> {
    match vertex_count_text(header) {
        None => Err(PlyError::MissingVertexCount),
        Some(text) => match decimal_value(text) {
            Some(count) => if count <= usize::MAX {
                Ok(count)
            } else {
                Err(PlyError::InvalidVertexCount)
            },
            None => Err(PlyError::InvalidVertexCount),
        },
    }
}

/// Every byte of `s` is ASCII.
pub open spec fn is_ascii(s: Seq<u8>) -> bool {
    forall|i: int| 0 <= i < s.len() ==> #[trigger] s[i] < 0x80
}

/// The vertex count of a point cloud, and where its first record starts. The
/// records fill what follows the header exactly.
pub open spec fn ply_layout(data: Seq<u8>) -> Result<(nat, int), PlyError> {
    match header_end(data) {
        None => Err(PlyError::MissingEndHeader),
        Some((at, ending_len)) => {
            let header = data.take(at);
            let body_start = at + end_header().len() + ending_len;
            if !is_ascii(header) {
                Err(PlyError::HeaderNotAscii)
            } else {
                match vertex_count(header) {
                    Err(e) => Err(e),
                    Ok(count) => if count * RAW_GAUSSIAN_SIZE > data.len() - body_start {
                        Err(PlyError::BodyTooSmall)
                    } else if count * RAW_GAUSSIAN_SIZE < data.len() - body_start {
                        Err(PlyError::BodyTooLarge)
                    } else {
                        Ok((count, body_start))
                    },
                }
            }
        },
    }
}

/// Whether `needle` stands in `data` at `at`.
fn matches_at(data: &[u8], needle: &[u8], at: usize) -> (found: bool)
    requires
        at + needle.len() <= data.len(),
    ensures
        found == occurs_at(data@, needle@, at as int),
{
    let mut k: usize = 0;
    while k < needle.len()
        invariant
            k <= needle.len(),
            at + needle.len() <= data.len(),
            forall|j: int| 0 <= j < k ==> data@[at + j] == needle@[j],
        decreases needle.len() - k,
    {
        if data[at + k] != needle[k] {
            assert(data@.subrange(at as int, at + needle@.len())[k as int] == data@[at + k]);
            return false;
        }
        k = k + 1;
    }
    assert(data@.subrange(at as int, at + needle@.len()) =~= needle@);
    true
}

/// The first terminator is the only position that is a first terminator, and
/// it is where the header ends.
pub proof fn lemma_first_terminator(data: Seq<u8>, at: int)
    requires
        first_terminator_at(data, at),
    ensures
        header_end(data) == Some((at, line_ending_len(data, at))),
{
    let chosen = choose|first: int| first_terminator_at(data, first);
    assert(first_terminator_at(data, chosen));
    if chosen < at {
        assert(!terminator_at(data, chosen));
    }
    if at < chosen {
        assert(!terminator_at(data, at));
    }
}

/// The header's end is the first terminator, and lies within the data, line
/// ending included.
pub proof fn lemma_header_end_within(data: Seq<u8>)
    requires
        header_end(data).is_some(),
    ensures
        ({
            let (at, ending_len) = header_end(data).unwrap();
            &&& first_terminator_at(data, at)
            &&& 0 <= at
            &&& 1 <= ending_len <= 2
            &&& at + end_header().len() + ending_len <= data.len()
        }),
{
    let (at, ending_len) = header_end(data).unwrap();
    assert(first_terminator_at(data, at));
    assert(end_header_lf().len() == 11 && end_header_crlf().len() == 12);
}

/// Looks for the end of the header: the first position at which `end_header`
/// stands with a line ending behind it, and the length of that line ending.
pub fn locate_header_end(data: &[u8]) -> (found: Option<(usize, usize)>)
    ensures
        match found {
            Some((at, ending_len)) => header_end(data@) == Some((at as int, ending_len as int)),
            None => header_end(data@).is_none(),
        },
{
    let needle_crlf: [u8; 12] = [
        0x65,
        0x6e,
        0x64,
        0x5f,
        0x68,
        0x65,
        0x61,
        0x64,
        0x65,
        0x72,
        0x0d,
        0x0a,
    ];
    let needle_lf: [u8; 11] = [0x65, 0x6e, 0x64, 0x5f, 0x68, 0x65, 0x61, 0x64, 0x65, 0x72, 0x0a];
    assert(needle_crlf@ =~= end_header_crlf());
    assert(needle_lf@ =~= end_header_lf());
    if data.len() < 11 {
        assert forall|at: int| !first_terminator_at(data@, at) by {
            assert(!terminator_at(data@, at));
        }
        return None;
    }
    let last: usize = data.len() - 11;
    let mut at: usize = 0;
    while at <= last
        invariant
            last == data.len() - 11,
            at <= last + 1,
            needle_crlf@ == end_header_crlf(),
            needle_lf@ == end_header_lf(),
            forall|before: int| 0 <= before < at ==> !terminator_at(data@, before),
        decreases last + 1 - at,
    {
        if matches_at(data, needle_lf.as_slice(), at) {
            proof {
                if occurs_at(data@, end_header_crlf(), at as int) {
                    assert(data@.subrange(at as int, at + 11)[10] == 0x0a);
                    assert(data@.subrange(at as int, at + 12)[10] == 0x0d);
                }
                lemma_first_terminator(data@, at as int);
            }
            return Some((at, 1));
        }
        if at < last && matches_at(data, needle_crlf.as_slice(), at) {
            proof {
                lemma_first_terminator(data@, at as int);
            }
            return Some((at, 2));
        }
        at = at + 1;
    }
    assert forall|at: int| !first_terminator_at(data@, at) by {
        assert(!terminator_at(data@, at));
    }
    None
}

/// Finds where the header ends: the position of `end_header`, and the length
/// of the line ending that follows it. The data must hold a terminator, which
/// `locate_header_end` tells.
pub fn find_header_end(data: &[u8]) -> (found: (usize, usize))
    requires
        header_end(data@).is_some(),
    ensures
        header_end(data@) == Some((found.0 as int, found.1 as int)),
{
    match locate_header_end(data) {
        Some(found) => found,
        // Never taken: the data holds a terminator.
        None => (data.len(), 0),
    }
}

/// Whether `b` is white space.
fn is_space_byte(b: u8) -> (space: bool)
    ensures
        space == is_space(b),
{
    b == 0x20 || (0x09 <= b && b <= 0x0d)
}

/// The part of `data[start..end]` that is left when the white space at either
/// end is taken away.
fn trim_range(data: &[u8], start: usize, end: usize) -> (range: (usize, usize))
    requires
        start <= end <= data.len(),
    ensures
        start <= range.0 <= range.1 <= end,
        data@.subrange(range.0 as int, range.1 as int) == trim(
            data@.subrange(start as int, end as int),
        ),
{
    let mut from: usize = start;
    while from < end && is_space_byte(data[from])
        invariant
            start <= from <= end <= data.len(),
            trim_start(data@.subrange(start as int, end as int)) == trim_start(
                data@.subrange(from as int, end as int),
            ),
        decreases end - from,
    {
        assert(data@.subrange(from as int, end as int).skip(1) =~= data@.subrange(
            from + 1,
            end as int,
        ));
        from = from + 1;
    }
    let mut to: usize = end;
    while to > from && is_space_byte(data[to - 1])
        invariant
            from <= to <= end <= data.len(),
            trim_end(data@.subrange(from as int, end as int)) == trim_end(
                data@.subrange(from as int, to as int),
            ),
        decreases to - from,
    {
        assert(data@.subrange(from as int, to as int).drop_last() =~= data@.subrange(
            from as int,
            to - 1,
        ));
        to = to - 1;
    }
    (from, to)
}

/// A number grows with every digit that is written after it.
pub proof fn lemma_digits_value_grows(s: Seq<u8>, k: int)
    requires
        0 <= k <= s.len(),
        all_digits(s),
    ensures
        digits_value(s.take(k)) <= digits_value(s),
    decreases s.len(),
{
    if k < s.len() {
        let shorter = s.drop_last();
        assert(shorter.take(k) =~= s.take(k));
        lemma_digits_value_grows(shorter, k);
        assert(is_digit(s[s.len() - 1]));
    } else {
        assert(s.take(k) =~= s);
    }
}

/// Reads the number written at `data[start..end]`, if it is one and fits.
fn parse_decimal(data: &[u8], start: usize, end: usize) -> (value: Option<usize>)
    requires
        start <= end <= data.len(),
    ensures
        match value {
            Some(v) => decimal_value(data@.subrange(start as int, end as int)) == Some(v as nat),
            None => match decimal_value(data@.subrange(start as int, end as int)) {
                Some(v) => v > usize::MAX,
                None => true,
            },
        },
{
    let ghost text = data@.subrange(start as int, end as int);
    if start == end {
        return None;
    }
    let first: usize = if data[start] == 0x2b {
        start + 1
    } else {
        start
    };
    let ghost digits = data@.subrange(first as int, end as int);
    assert(digits =~= digits_of(text));
    if first == end {
        return None;
    }
    let mut value: usize = 0;
    let mut at: usize = first;
    while at < end
        invariant
            first <= at <= end <= data.len(),
            first < end,
            digits == data@.subrange(first as int, end as int),
            digits == digits_of(data@.subrange(start as int, end as int)),
            all_digits(digits.take(at - first)),
            value == digits_value(digits.take(at - first)),
        decreases end - at,
    {
        let b: u8 = data[at];
        if !(0x30 <= b && b <= 0x39) {
            assert(!is_digit(digits[at - first]));
            return None;
        }
        let digit: usize = (b - 0x30) as usize;
        proof {
            let longer = digits.take(at + 1 - first);
            assert(longer.drop_last() =~= digits.take(at - first));
            assert(longer.last() == b);
            assert(all_digits(longer)) by {
                assert forall|i: int| 0 <= i < longer.len() implies is_digit(
                    #[trigger] longer[i],
                ) by {
                    if i < at - first {
                        assert(is_digit(digits.take(at - first)[i]));
                    }
                }
            }
            if all_digits(digits) {
                lemma_digits_value_grows(digits, at + 1 - first);
            }
        }
        if value > (usize::MAX - digit) / 10 {
            return None;
        }
        value = value * 10 + digit;
        at = at + 1;
    }
    assert(digits.take(at - first) =~= digits);
    Some(value)
}

/// Reads the vertex count that a header declares: the number on the first
/// line that, trimmed, begins with `element vertex `. The header must declare
/// one, which `read_vertex_count` tells.
pub fn parse_vertex_count(header: &[u8]) -> (count: usize)
    requires
        vertex_count(header@).is_ok(),
    ensures
        vertex_count(header@) == Ok::<nat, PlyError>(count as nat),
{
    match read_vertex_count(header) {
        Ok(count) => count,
        // Never taken: the header declares a count.
        Err(_) => 0,
    }
}

/// Looks for the vertex count that a header declares: the number on the first
/// line that, trimmed, begins with `element vertex `, or what is wrong with
/// the header.
pub fn read_vertex_count(header: &[u8]) -> (count: Result<usize, PlyError>)
    ensures
        match count {
            Ok(n) => vertex_count(header@) == Ok::<nat, PlyError>(n as nat),
            Err(e) => vertex_count(header@) == Err::<nat, PlyError>(e),
        },
{
    let prefix: [u8; 15] = [
        0x65,
        0x6c,
        0x65,
        0x6d,
        0x65,
        0x6e,
        0x74,
        0x20,
        0x76,
        0x65,
        0x72,
        0x74,
        0x65,
        0x78,
        0x20,
    ];
    assert(prefix@ =~= vertex_prefix());
    let mut line_start: usize = 0;
    assert(header@.skip(0) =~= header@);
    loop
        invariant
            line_start <= header.len(),
            prefix@ == vertex_prefix(),
            vertex_count_text(header@) == vertex_count_text(header@.skip(line_start as int)),
        decreases header.len() - line_start,
    {
        let ghost rest = header@.skip(line_start as int);
        let mut line_end: usize = line_start;
        while line_end < header.len() && header[line_end] != 0x0a
            invariant
                line_start <= line_end <= header.len(),
                line_len(header@.skip(line_start as int)) == (line_end - line_start) + line_len(
                    header@.skip(line_end as int),
                ),
            decreases header.len() - line_end,
        {
            assert(header@.skip(line_end as int).skip(1) =~= header@.skip(line_end + 1));
            line_end = line_end + 1;
        }
        assert(line_len(rest) == line_end - line_start);
        assert(rest.take(line_end - line_start) =~= header@.subrange(
            line_start as int,
            line_end as int,
        ));
        let (from, to) = trim_range(header, line_start, line_end);
        let ghost line = header@.subrange(from as int, to as int);
        if to - from >= 15 && matches_at(header, prefix.as_slice(), from) {
            assert(line.take(15) =~= header@.subrange(from as int, from + 15));
            assert(line.skip(15) =~= header@.subrange(from + 15, to as int));
            let (number_from, number_to) = trim_range(header, from + 15, to);
            return match parse_decimal(header, number_from, number_to) {
                Some(n) => Ok(n),
                None => Err(PlyError::InvalidVertexCount),
            };
        }
        assert(!starts_with(line, vertex_prefix())) by {
            if to - from >= 15 {
                assert(line.take(15) =~= header@.subrange(from as int, from + 15));
            }
        }
        if line_end == header.len() {
            return Err(PlyError::MissingVertexCount);
        }
        assert(rest.skip(line_end - line_start + 1) =~= header@.skip(line_end + 1));
        line_start = line_end + 1;
    }
}

/// Whether every byte of `data` is ASCII.
fn is_ascii_bytes(data: &[u8]) -> (ascii: bool)
    ensures
        ascii == is_ascii(data@),
{
    let mut i: usize = 0;
    while i < data.len()
        invariant
            i <= data.len(),
            forall|j: int| 0 <= j < i ==> #[trigger] data@[j] < 0x80,
        decreases data.len() - i,
    {
        if data[i] >= 0x80 {
            return false;
        }
        i = i + 1;
    }
    true
}

/// Reads the layout of a point cloud: finds the end of the header, reads the
/// vertex count from it, and holds it against the bytes that follow. Gives
/// the vertex count and where the first record starts, or what is wrong.
pub fn read_ply_layout(data: &[u8]) -> (layout: Result<(usize, usize), PlyError>)
    ensures
        match layout {
            Ok((count, body_start)) => ply_layout(data@) == Ok::<(nat, int), PlyError>(
                (count as nat, body_start as int),
            ) && body_start + count * RAW_GAUSSIAN_SIZE == data.len(),
            Err(e) => ply_layout(data@) == Err::<(nat, int), PlyError>(e),
        },
{
    let (header_len, ending_len) = match locate_header_end(data) {
        Some(found) => found,
        None => {
            return Err(PlyError::MissingEndHeader);
        },
    };
    proof {
        lemma_header_end_within(data@);
        assert(end_header().len() == 10);
        assert(header_end(data@).unwrap() == (header_len as int, ending_len as int));
        assert(header_len + 10 + ending_len <= data.len());
    }
    let header: &[u8] = slice_subrange(data, 0, header_len);
    assert(header@ =~= data@.take(header_len as int));
    if !is_ascii_bytes(header) {
        return Err(PlyError::HeaderNotAscii);
    }
    let vertex_count: usize = match read_vertex_count(header) {
        Ok(n) => n,
        Err(e) => {
            return Err(e);
        },
    };
    let body_start: usize = header_len + 10 + ending_len;
    let body_len: usize = data.len() - body_start;
    if vertex_count > body_len / RAW_GAUSSIAN_SIZE {
        return Err(PlyError::BodyTooSmall);
    }
    if vertex_count * RAW_GAUSSIAN_SIZE < body_len {
        return Err(PlyError::BodyTooLarge);
    }
    Ok((vertex_count, body_start))
}

/// Reads a point cloud: as many records as the header declares, decoded from
/// what follows the header. The data must be laid out as a point cloud, which
/// `read_ply_layout` tells.
pub fn load_ply_from_bytes(data: &[u8]) -> (gaussians: Vec<RawGaussian>)
    requires
        ply_layout(data@).is_ok(),
    ensures
        ({
            let (count, body_start) = ply_layout(data@).unwrap();
            &&& gaussians@.len() == count
            &&& forall|i: int|
                0 <= i < count ==> (#[trigger] gaussians@[i]).words() == stored_words(
                    data@,
                    body_start + RAW_GAUSSIAN_SIZE * i,
                )
        }),
{
    let (vertex_count, body_start) = match read_ply_layout(data) {
        Ok(layout) => layout,
        // Never taken: the data is laid out as a point cloud.
        Err(_) => (0, data.len()),
    };
    let mut gaussians: Vec<RawGaussian> = Vec::new();
    let mut i: usize = 0;
    while i < vertex_count
        invariant
            i <= vertex_count,
            body_start + vertex_count * RAW_GAUSSIAN_SIZE <= data.len(),
            gaussians@.len() == i,
            forall|j: int|
                0 <= j < i ==> (#[trigger] gaussians@[j]).words() == stored_words(
                    data@,
                    body_start + RAW_GAUSSIAN_SIZE * j,
                ),
        decreases vertex_count - i,
    {
        assert(i * RAW_GAUSSIAN_SIZE + RAW_GAUSSIAN_SIZE <= vertex_count * RAW_GAUSSIAN_SIZE)
            by (nonlinear_arith)
            requires
                i < vertex_count,
        ;
        let raw = RawGaussian::decode(data, body_start + i * RAW_GAUSSIAN_SIZE);
        gaussians.push(raw);
        i = i + 1;
    }
    gaussians
}

} // verus!
