//! Splitting the bytes of a text file into lines.
use vstd::prelude::*;
use vstd::slice::{slice_subrange, slice_to_vec};
use vstd::utf8::{decode_utf8, valid_utf8};

verus! {

/// The line feed.
pub const LF: u8 = 10;

/// The carriage return.
pub const CR: u8 = 13;

/// The number of bytes that stand before the first line feed, or the number
/// of all bytes where there is none.
pub open spec fn line_end(bytes: Seq<u8>) -> nat
    decreases bytes.len(),
{
    if bytes.len() == 0 || bytes[0] == LF {
        0
    } else {
        1 + line_end(bytes.skip(1))
    }
}

/// The bytes of a line without the carriage return at their end, if there is
/// one.
pub open spec fn without_cr(raw: Seq<u8>) -> Seq<u8> {
    if raw.len() > 0 && raw.last() == CR {
        raw.drop_last()
    } else {
        raw
    }
}

/// The text that bytes encode in UTF-8; the empty text where they encode
/// none.
pub open spec fn text_of(raw: Seq<u8>) -> Seq<char> {
    if valid_utf8(raw) {
        decode_utf8(raw)
    } else {
        Seq::empty()
    }
}

/// The texts of a run of lines, in order.
pub open spec fn line_views(lines: Seq<String>) -> Seq<Seq<char>> {
    lines.map_values(|l: String| l@)
}

/// The lines of a text. A line ends with a line feed, or with the text. The
/// line feed is no part of the line, nor is a carriage return just before it.
/// What follows the last line feed is a line only if it is not empty. A line
/// that is not UTF-8 counts as an empty line.
pub open spec fn split_lines_spec(bytes: Seq<u8>) -> Seq<Seq<char>>
    decreases bytes.len(),
{
    if bytes.len() == 0 {
        Seq::empty()
    } else {
        let end = line_end(bytes) as int;
        if end < bytes.len() {
            seq![text_of(without_cr(bytes.take(end)))] + split_lines_spec(bytes.skip(end + 1))
        } else {
            seq![text_of(bytes)]
        }
    }
}

/// Calls `String::from_utf8` of std. Trusted: it gives a text exactly for
/// bytes that are valid UTF-8, and the text is the one that they encode.
#[verifier::external_body]
fn string_from_utf8(bytes: Vec<u8>) -> (text: Option<String>)
    ensures
        match text {
            Some(t) => valid_utf8(bytes@) && t@ == decode_utf8(bytes@),
            None => !valid_utf8(bytes@),
        },
{
    String::from_utf8(bytes).ok()
}

/// The text of the bytes of one line.
fn line_text(raw: &[u8]) -> (text: String)
    ensures
        text@ == text_of(raw@),
{
    match string_from_utf8(slice_to_vec(raw)) {
        Some(text) => text,
        None => String::new(),
    }
}

/// Splits the bytes of a text into its lines.
pub fn split_lines(bytes: &[u8]) -> (lines: Vec<String>)
    ensures
        line_views(lines@) == split_lines_spec(bytes@),
{
    let n: usize = bytes.len();
    let mut lines: Vec<String> = Vec::new();
    let mut start: usize = 0;
    assert(bytes@.skip(0) =~= bytes@);
    assert(line_views(lines@) + split_lines_spec(bytes@) =~= split_lines_spec(
        bytes@,
    ));
    while start < n
        invariant
            n == bytes@.len(),
            start <= n,
            line_views(lines@) + split_lines_spec(bytes@.skip(start as int))
                == split_lines_spec(bytes@),
        decreases n - start,
    {
        let ghost rest = bytes@.skip(start as int);
        let ghost done = line_views(lines@);
        let mut end: usize = start;
        assert(bytes@.skip(start as int).skip(0) =~= rest);
        while end < n && bytes[end] != LF
            invariant
                n == bytes@.len(),
                start <= end <= n,
                rest == bytes@.skip(start as int),
                line_end(rest) == (end - start) + line_end(rest.skip(end - start)),
            decreases n - end,
        {
            assert(rest.skip(end - start).skip(1) =~= rest.skip(end - start + 1));
            end = end + 1;
        }
        assert(line_end(rest) == end - start);
        if end < n {
            let stop: usize = if start < end && bytes[end - 1] == CR {
                end - 1
            } else {
                end
            };
            let text = line_text(slice_subrange(bytes, start, stop));
            proof {
                assert(rest.take(end - start) =~= bytes@.subrange(start as int, end as int));
                assert(without_cr(rest.take(end - start)) =~= bytes@.subrange(
                    start as int,
                    stop as int,
                ));
                assert(rest.skip(end - start + 1) =~= bytes@.skip(end as int + 1));
            }
            lines.push(text);
            assert(line_views(lines@) =~= done.push(text@));
            assert(done.push(text@) + split_lines_spec(bytes@.skip(end as int + 1)) =~= done
                + split_lines_spec(rest));
            start = end + 1;
        } else {
            let text = line_text(slice_subrange(bytes, start, n));
            proof {
                assert(rest =~= bytes@.subrange(start as int, n as int));
                assert(bytes@.skip(n as int) =~= Seq::<u8>::empty());
            }
            lines.push(text);
            assert(line_views(lines@) =~= done.push(text@));
            assert(done.push(text@) + split_lines_spec(bytes@.skip(n as int)) =~= done
                + split_lines_spec(rest));
            start = n;
        }
    }
    assert(bytes@.skip(n as int) =~= Seq::<u8>::empty());
    assert(line_views(lines@) + split_lines_spec(bytes@.skip(n as int))
        =~= line_views(lines@));
    lines
}

} // verus!
