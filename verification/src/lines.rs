//! The lines of a text: where they begin and end, and how they are cut out.

use vstd::prelude::*;
use vstd::utf8::encode_utf8_valid_utf8;
use vstd::utf8::is_char_boundary;
use vstd::utf8::is_char_boundary_iff_not_is_continuation_byte;
use vstd::utf8::is_char_boundary_start_end_of_seq;
use vstd::utf8::length_of_first_scalar;
use vstd::utf8::pop_first_scalar;
use vstd::utf8::valid_utf8;
use vstd::string::StringSliceAdditionalSpecFns;
use vstd::utf8::decode_utf8;
use vstd::utf8::encode_utf8_decode_utf8;
use crate::text::bytes_of;
use crate::text::strings_view;

verus! {

/// The byte after a one-byte character begins a character or ends the text.
pub proof fn lemma_boundary_after_ascii(bytes: Seq<u8>, i: int)
    requires
        valid_utf8(bytes),
        0 <= i < bytes.len(),
        is_char_boundary(bytes, i),
        bytes[i] < 0x80,
    ensures
        is_char_boundary(bytes, i + 1),
    decreases bytes.len(),
{
    reveal_with_fuel(is_char_boundary, 2);
    reveal_with_fuel(valid_utf8, 2);
    let rest = pop_first_scalar(bytes);
    let width = length_of_first_scalar(bytes);
    if i == 0 {
        assert(width == 1);
        assert(is_char_boundary(rest, 0));
    } else {
        assert(is_char_boundary(rest, i - width));
        assert(i - width >= 0);
        assert(rest[i - width] == bytes[i]);
        lemma_boundary_after_ascii(rest, i - width);
    }
}

/// A position where a one-byte character stands begins a character.
pub proof fn lemma_boundary_at_ascii(bytes: Seq<u8>, i: int)
    requires
        valid_utf8(bytes),
        0 <= i < bytes.len(),
        bytes[i] < 0x80,
    ensures
        is_char_boundary(bytes, i),
{
    is_char_boundary_iff_not_is_continuation_byte(bytes, i);
}

/// Cuts the bytes from `a` up to `b` out of a text.
pub fn slice_str<'a>(content: &'a str, a: usize, b: usize) -> (part: &'a str)
    requires
        a <= b <= bytes_of(content@).len(),
        is_char_boundary(bytes_of(content@), a as int),
        is_char_boundary(bytes_of(content@), b as int),
    ensures
        bytes_of(part@) == bytes_of(content@).subrange(a as int, b as int),
{
    let ghost bytes = bytes_of(content@);
    let (head, _) = content.split_at(b);
    proof {
        let head_bytes = head.spec_bytes();
        encode_utf8_valid_utf8(content@);
        encode_utf8_valid_utf8(head@);
        assert(head_bytes == bytes.subrange(0, b as int));
        if a < b {
            is_char_boundary_iff_not_is_continuation_byte(bytes, a as int);
            is_char_boundary_iff_not_is_continuation_byte(head_bytes, a as int);
        } else {
            is_char_boundary_start_end_of_seq(head_bytes);
        }
    }
    let (_, part) = head.split_at(a);
    assert(part.spec_bytes() =~= bytes.subrange(a as int, b as int));
    part
}

/// The index of the first line feed at or after `from`; the length of the
/// text if there is none.
pub open spec fn next_newline(bytes: Seq<u8>, from: int) -> int
    decreases bytes.len() - from,
{
    if from < 0 || from >= bytes.len() {
        bytes.len() as int
    } else if bytes[from] == 10u8 {
        from
    } else {
        next_newline(bytes, from + 1)
    }
}

/// The line without the carriage return at its end, if it has one.
pub open spec fn strip_cr(line: Seq<u8>) -> Seq<u8> {
    if line.len() > 0 && line.last() == 13u8 {
        line.drop_last()
    } else {
        line
    }
}

/// The lines of the text from the byte `from` on. A line ends before a line
/// feed, or before a carriage return and a line feed, or at the end of the
/// text; a text that ends with a line feed has no empty line after it.
pub open spec fn lines_from(bytes: Seq<u8>, from: int) -> Seq<Seq<u8>>
    decreases bytes.len() - from,
{
    if from < 0 || from >= bytes.len() {
        Seq::empty()
    } else {
        let k = next_newline(bytes, from);
        if k < from || k > bytes.len() {
            Seq::empty()
        } else if k == bytes.len() {
            seq![bytes.subrange(from, k)]
        } else {
            seq![strip_cr(bytes.subrange(from, k))] + lines_from(bytes, k + 1)
        }
    }
}

/// The lines of a text.
pub open spec fn lines_of(bytes: Seq<u8>) -> Seq<Seq<u8>> {
    lines_from(bytes, 0)
}

/// The bytes of each of a list of strings.
pub open spec fn texts_of(lines: Seq<String>) -> Seq<Seq<u8>> {
    lines.map_values(|l: String| bytes_of(l@))
}

/// The lines of a text, as texts.
pub open spec fn char_lines(content: Seq<char>) -> Seq<Seq<char>> {
    lines_of(bytes_of(content)).map_values(|line: Seq<u8>| decode_utf8(line))
}

/// Splits a text into its lines.
pub fn split_lines(content: &str) -> (lines: Vec<String>)
    ensures
        texts_of(lines@) == lines_of(bytes_of(content@)),
        strings_view(lines@) == char_lines(content@),
{
    let bytes = content.as_bytes();
    let n = bytes.len();
    let mut lines: Vec<String> = Vec::new();
    let mut start: usize = 0;
    proof {
        encode_utf8_valid_utf8(content@);
        is_char_boundary_start_end_of_seq(bytes@);
        assert(texts_of(lines@) + lines_from(bytes@, 0) =~= lines_of(bytes@));
    }
    while start < n
        invariant
            n == bytes@.len(),
            bytes@ == bytes_of(content@),
            valid_utf8(bytes@),
            start <= n,
            is_char_boundary(bytes@, start as int),
            is_char_boundary(bytes@, n as int),
            texts_of(lines@) + lines_from(bytes@, start as int) == lines_of(bytes@),
        decreases n - start,
    {
        let mut k: usize = start;
        while k < n && bytes[k] != 10u8
            invariant
                n == bytes@.len(),
                start <= k <= n,
                next_newline(bytes@, start as int) == next_newline(bytes@, k as int),
            decreases n - k,
        {
            k += 1;
        }
        assert(k == next_newline(bytes@, start as int));
        let mut end: usize = k;
        if k < n && end > start && bytes[end - 1] == 13u8 {
            end -= 1;
        }
        proof {
            if k < n {
                lemma_boundary_at_ascii(bytes@, k as int);
                lemma_boundary_after_ascii(bytes@, k as int);
            }
            if end < k {
                lemma_boundary_at_ascii(bytes@, end as int);
            }
        }
        let part = slice_str(content, start, end);
        let ghost before = texts_of(lines@);
        let ghost line = bytes_of(part@);
        lines.push(part.to_owned());
        proof {
            assert(texts_of(lines@) =~= before.push(line));
            let whole = bytes@.subrange(start as int, k as int);
            if k < n {
                if end < k {
                    assert(whole.last() == 13u8);
                    assert(whole.drop_last() =~= bytes@.subrange(start as int, end as int));
                } else {
                    assert(strip_cr(whole) == whole);
                }
            }
            if k < n {
                assert(lines_from(bytes@, start as int) == seq![line] + lines_from(bytes@, k + 1));
                assert(before.push(line) + lines_from(bytes@, k + 1) =~= before + (seq![line]
                    + lines_from(bytes@, k + 1)));
            } else {
                assert(lines_from(bytes@, start as int) == seq![line]);
                assert(before.push(line) + lines_from(bytes@, n as int) =~= before + seq![line]);
            }
        }
        if k < n {
            start = k + 1;
        } else {
            start = n;
        }
    }
    assert(texts_of(lines@) + lines_from(bytes@, start as int) =~= texts_of(lines@));
    proof {
        assert forall|k: int| 0 <= k < lines@.len() implies (#[trigger] lines@[k])@ == decode_utf8(
            lines_of(bytes@)[k],
        ) by {
            encode_utf8_decode_utf8(lines@[k]@);
            assert(texts_of(lines@)[k] == bytes_of(lines@[k]@));
        }
        assert(strings_view(lines@) =~= char_lines(content@));
    }
    lines
}

} // verus!
