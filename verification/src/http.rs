//! Requests to the model server and its answers, as the bytes that go over the connection.

use vstd::prelude::*;
use vstd::slice::slice_subrange;
use vstd::utf8::{decode_utf8, encode_utf8, pop_first_scalar, valid_utf8};
use crate::chars::{is_space, CharClass};
use crate::numbers::{decimal, digit_value, digits_value, number, to_decimal};
use crate::outside::{decoded, lossy_text, lowered, parse_radix, radix_error, to_lowercase};
use crate::prompts::lemma_holds_middle;
use crate::text::{
    begins, blank, byte_len, contains, ends, find, first_at, first_chars, holds, lemma_byte_len_encoding,
    lemma_first_at, lemma_found_first, lemma_trimmed_bare, occurs_at, opt_text, starts_with, take_chars, take_up_to, trim, trimmed,
};

verus! {

// ---------------------------------------------------------------------------------------------
// Answers
// ---------------------------------------------------------------------------------------------

/// `pat` stands in `b` at the position `i`.
pub open spec fn bytes_at(b: Seq<u8>, pat: Seq<u8>, i: int) -> bool {
    &&& 0 <= i
    &&& i + pat.len() <= b.len()
    &&& b.subrange(i, i + pat.len()) == pat
}

/// The first position, not before `from`, at which `pat` stands in `b`.
pub open spec fn bytes_find(b: Seq<u8>, pat: Seq<u8>, from: int) -> Option<int>
    decreases b.len() - from + 1,
{
    if from < 0 || from + pat.len() > b.len() {
        None
    } else if bytes_at(b, pat, from) {
        Some(from)
    } else {
        bytes_find(b, pat, from + 1)
    }
}

/// A line ending.
pub open spec fn crlf() -> Seq<u8> {
    seq![13u8, 10u8]
}

/// The end of a header: an empty line.
pub open spec fn blank_line() -> Seq<u8> {
    seq![13u8, 10u8, 13u8, 10u8]
}

/// The chunk size that a size line gives, as text: what stands before a semicolon.
pub open spec fn size_text(line: Seq<char>) -> Seq<char> {
    match first_at(line, ";"@) {
        Some(i) => trimmed(line.take(i)),
        None => trimmed(line),
    }
}

/// The error for a size line that is no number.
pub open spec fn bad_size(text: Seq<char>) -> Seq<char> {
    "Chunked HTTP response is defective: invalid chunk size '"@ + text + "': "@ + radix_error(text, 16)
}

/// The number that a size text gives, where it fits into a machine word.
pub open spec fn chunk_size(text: Seq<char>) -> Option<nat> {
    match number(text, 16) {
        Some(n) => if n <= usize::MAX {
            Some(n)
        } else {
            None
        },
        None => None,
    }
}

/// Where the next size line begins behind a chunk that ends at `end`.
pub open spec fn behind_chunk(bytes: Seq<u8>, end: int) -> int {
    if bytes_at(bytes, crlf(), end) {
        end + 2
    } else {
        end
    }
}

/// The data of the chunks from `pos` on: each chunk is a size line and that many bytes, and a size
/// of zero ends them. `None` where the end of a chunk is beyond what a machine word can count.
pub open spec fn dechunked(bytes: Seq<u8>, pos: int) -> Option<Result<Seq<u8>, Seq<char>>>
    decreases bytes.len() - pos,
{
    if pos < 0 {
        None
    } else {
        match bytes_find(bytes, crlf(), pos) {
            None => Some(
                Err("Chunked HTTP response is defective: chunk size not found"@),
            ),
            Some(line_end) => {
                let text = size_text(decoded(bytes.subrange(pos, line_end)));
                match chunk_size(text) {
                    None => Some(Err(bad_size(text))),
                    Some(size) => {
                        let start = line_end + 2;
                        if size == 0 {
                            Some(Ok(Seq::empty()))
                        } else if start + size > usize::MAX {
                            None
                        } else if start + size > bytes.len() {
                            Some(
                                Err(
                                    "Chunked HTTP response is defective: chunk longer than response"@,
                                ),
                            )
                        } else {
                            proof {
                                lemma_bytes_find(bytes, crlf(), pos);
                            }
                            match dechunked(bytes, behind_chunk(bytes, start + size)) {
                                Some(Ok(rest)) => Some(
                                    Ok(bytes.subrange(start, start + size) + rest),
                                ),
                                other => other,
                            }
                        }
                    },
                }
            },
        }
    }
}

/// A search finds the first occurrence there is, and finds one if there is any.
pub proof fn lemma_bytes_find(b: Seq<u8>, pat: Seq<u8>, from: int)
    requires
        0 <= from,
    ensures
        match bytes_find(b, pat, from) {
            Some(i) => from <= i && bytes_at(b, pat, i) && forall|j: int|
                from <= j < i ==> !bytes_at(b, pat, j),
            None => forall|j: int| from <= j ==> !bytes_at(b, pat, j),
        },
    decreases b.len() - from + 1,
{
    if from + pat.len() <= b.len() && !bytes_at(b, pat, from) {
        lemma_bytes_find(b, pat, from + 1);
    }
}

/// Decoding makes nothing up: the data of the chunks is no longer than the bytes that it comes
/// from.
pub proof fn decoding_makes_nothing_up(bytes: Seq<u8>, pos: int)
    requires
        0 <= pos <= bytes.len(),
    ensures
        dechunked(bytes, pos) matches Some(Ok(data)) ==> data.len() <= bytes.len() - pos,
    decreases bytes.len() - pos,
{
    lemma_bytes_find(bytes, crlf(), pos);
    match bytes_find(bytes, crlf(), pos) {
        None => {},
        Some(line_end) => {
            let text = size_text(decoded(bytes.subrange(pos, line_end)));
            match chunk_size(text) {
                None => {},
                Some(size) => {
                    let end = line_end + 2 + size;
                    if size > 0 && end <= bytes.len() {
                        decoding_makes_nothing_up(bytes, behind_chunk(bytes, end));
                    }
                },
            }
        },
    }
}

/// The byte of a hexadecimal digit.
pub open spec fn hex_digit(d: int) -> u8 {
    if d < 10 {
        (48 + d) as u8
    } else {
        (87 + d) as u8
    }
}

/// A number in hexadecimal, as bytes.
pub open spec fn hex(n: nat) -> Seq<u8>
    decreases n,
{
    if n < 16 {
        seq![hex_digit(n as int)]
    } else {
        hex(n / 16).push(hex_digit((n % 16) as int))
    }
}

/// Chunks as they are sent: each behind its size, and an empty one at the end.
pub open spec fn chunked(chunks: Seq<Seq<u8>>) -> Seq<u8>
    decreases chunks.len(),
{
    if chunks.len() == 0 {
        hex(0) + crlf() + crlf()
    } else {
        hex(chunks[0].len()) + crlf() + chunks[0] + crlf() + chunked(chunks.skip(1))
    }
}

/// The data of chunks.
pub open spec fn data_of(chunks: Seq<Seq<u8>>) -> Seq<u8>
    decreases chunks.len(),
{
    if chunks.len() == 0 {
        Seq::empty()
    } else {
        chunks[0] + data_of(chunks.skip(1))
    }
}

/// Bytes below 128 as characters.
pub open spec fn ascii_chars(bytes: Seq<u8>) -> Seq<char> {
    bytes.map_values(|b: u8| b as char)
}

/// ASCII bytes stand for the characters with their numbers.
proof fn lemma_decoded_ascii(bytes: Seq<u8>)
    requires
        forall|i: int| 0 <= i < bytes.len() ==> #[trigger] bytes[i] < 0x80,
    ensures
        decoded(bytes) == ascii_chars(bytes),
{
    lemma_ascii_utf8(bytes);
}

/// ASCII bytes are UTF-8.
proof fn lemma_ascii_utf8(bytes: Seq<u8>)
    requires
        forall|i: int| 0 <= i < bytes.len() ==> #[trigger] bytes[i] < 0x80,
    ensures
        valid_utf8(bytes),
        decode_utf8(bytes) == ascii_chars(bytes),
    decreases bytes.len(),
{
    if bytes.len() > 0 {
        let b = bytes[0];
        assert(b < 0x80);
        assert((b & 0x7f) == b) by (bit_vector)
            requires
                b < 0x80,
        ;
        let rest = pop_first_scalar(bytes);
        assert(rest =~= bytes.skip(1));
        assert forall|i: int| 0 <= i < rest.len() implies #[trigger] rest[i] < 0x80 by {
            assert(rest[i] == bytes[i + 1]);
        }
        lemma_ascii_utf8(rest);
        assert(ascii_chars(bytes) =~= seq![b as char] + ascii_chars(rest));
    } else {
        assert(decode_utf8(bytes) =~= ascii_chars(bytes));
    }
}

/// A hexadecimal digit, as a character: it is worth its value, and it is neither white space nor a
/// sign.
proof fn lemma_hex_digit(d: int)
    requires
        0 <= d < 16,
    ensures
        48 <= hex_digit(d) < 0x80,
        hex_digit(d) != 59,
        digit_value(hex_digit(d) as char) == Some(d as nat),
        !is_space(hex_digit(d) as char),
        hex_digit(d) as char != '+',
        hex_digit(d) as char != ';',
{
}

/// A number in hexadecimal is read back, and its bytes are digits.
proof fn lemma_hex(n: nat)
    ensures
        hex(n).len() > 0,
        forall|i: int|
            0 <= i < hex(n).len() ==> 48 <= #[trigger] hex(n)[i] < 0x80 && hex(n)[i] != 59
                && !is_space(hex(n)[i] as char) && hex(n)[i] as char != '+',
        digits_value(ascii_chars(hex(n)), 16) == Some(n),
    decreases n,
{
    let t = ascii_chars(hex(n));
    if n < 16 {
        lemma_hex_digit(n as int);
        assert(t =~= seq![hex_digit(n as int) as char]);
        assert(t.drop_last() =~= Seq::<char>::empty());
        assert(digits_value(t.drop_last(), 16) == Some(0nat));
    } else {
        let d = (n % 16) as int;
        lemma_hex_digit(d);
        lemma_hex(n / 16);
        assert(t.drop_last() =~= ascii_chars(hex(n / 16)));
        assert(t.last() == hex_digit(d) as char);
        assert(n == (n / 16) * 16 + n % 16);
    }
}

/// The size line of a chunk gives the size of the chunk.
proof fn lemma_size_line(n: nat)
    requires
        n <= usize::MAX,
    ensures
        chunk_size(size_text(decoded(hex(n)))) == Some(n),
{
    lemma_hex(n);
    lemma_decoded_ascii(hex(n));
    let t = ascii_chars(hex(n));
    reveal_strlit(";");
    lemma_first_at(t, ";"@);
    match first_at(t, ";"@) {
        Some(i) => {
            assert(t.subrange(i, i + 1)[0] == ";"@[0]);
            assert(t[i] == hex(n)[i] as char);
        },
        None => {},
    }
    assert(t[0] == hex(n)[0] as char);
    assert(t.last() == hex(n)[hex(n).len() - 1] as char);
    lemma_trimmed_bare(t, CharClass::Space);
}

/// The first line ending behind a row of digits is the one that follows on it.
proof fn lemma_line_end(bytes: Seq<u8>, pos: int, n: nat)
    requires
        0 <= pos,
        pos + hex(n).len() + 2 <= bytes.len(),
        bytes.subrange(pos, pos + hex(n).len()) == hex(n),
        bytes_at(bytes, crlf(), (pos + hex(n).len()) as int),
    ensures
        bytes_find(bytes, crlf(), pos) == Some((pos + hex(n).len()) as int),
{
    lemma_hex(n);
    lemma_bytes_find(bytes, crlf(), pos);
    let end = pos + hex(n).len();
    assert forall|j: int| pos <= j < end implies !bytes_at(bytes, crlf(), j) by {
        assert(bytes[j] == hex(n)[j - pos]);
        if bytes_at(bytes, crlf(), j) {
            assert(bytes.subrange(j, j + 2)[0] == crlf()[0]);
        }
    }
}

/// Decoding goes on with what follows on a part that was decoded.
proof fn lemma_decoding(before: Seq<u8>, chunks: Seq<Seq<u8>>)
    requires
        (before + chunked(chunks)).len() <= usize::MAX,
        forall|i: int| 0 <= i < chunks.len() ==> (#[trigger] chunks[i]).len() > 0,
    ensures
        dechunked(before + chunked(chunks), before.len() as int) == Some(
            Ok::<Seq<u8>, Seq<char>>(data_of(chunks)),
        ),
    decreases chunks.len(),
{
    let bytes = before + chunked(chunks);
    let pos = before.len() as int;
    let n = if chunks.len() == 0 {
        0
    } else {
        chunks[0].len()
    };
    let line_end = pos + hex(n).len();
    let start = line_end + 2;
    if chunks.len() == 0 {
        assert(bytes =~= before + hex(n) + crlf() + crlf());
    } else {
        assert(chunks[0].len() > 0);
        assert(bytes =~= before + hex(n) + crlf() + (chunks[0] + crlf() + chunked(
            chunks.skip(1),
        )));
    }
    assert(bytes.subrange(pos, line_end) =~= hex(n));
    assert(bytes.subrange(line_end, line_end + 2) =~= crlf());
    assert(bytes_at(bytes, crlf(), line_end));
    lemma_line_end(bytes, pos, n);
    lemma_size_line(n);
    if chunks.len() > 0 {
        let rest = chunks.skip(1);
        let end = start + n;
        let next = before + hex(n) + crlf() + chunks[0] + crlf();
        assert forall|i: int| 0 <= i < rest.len() implies (#[trigger] rest[i]).len() > 0 by {
            assert(rest[i] == chunks[i + 1]);
        }
        assert(bytes =~= next + chunked(rest));
        assert(bytes.subrange(start, end) =~= chunks[0]);
        assert(bytes.subrange(end, end + 2) =~= crlf());
        assert(bytes_at(bytes, crlf(), end));
        assert(behind_chunk(bytes, end) == next.len());
        lemma_decoding(next, rest);
    }
}

/// Decoding undoes sending in chunks, whatever the chunks hold, line endings included.
pub proof fn decoding_undoes_chunking(chunks: Seq<Seq<u8>>)
    requires
        chunked(chunks).len() <= usize::MAX,
        forall|i: int| 0 <= i < chunks.len() ==> (#[trigger] chunks[i]).len() > 0,
    ensures
        dechunked(chunked(chunks), 0) == Some(Ok::<Seq<u8>, Seq<char>>(data_of(chunks))),
{
    let none: Seq<u8> = Seq::empty();
    assert(none + chunked(chunks) =~= chunked(chunks));
    lemma_decoding(none, chunks);
}

/// The position of the first empty line.
pub fn find_header_end(bytes: &[u8]) -> (r: Option<usize>)
    ensures
        match r {
            Some(i) => bytes_find(bytes@, blank_line(), 0) == Some(i as int) && i + 4
                <= bytes@.len(),
            None => bytes_find(bytes@, blank_line(), 0) is None,
        },
{
    let n: usize = bytes.len();
    let mut i: usize = 0;
    while n - i >= 4
        invariant
            i <= n == bytes@.len(),
            bytes_find(bytes@, blank_line(), 0) == bytes_find(bytes@, blank_line(), i as int),
        decreases n - i,
    {
        let ghost w = bytes@.subrange(i as int, i + 4);
        assert(w == blank_line() <==> w[0] == 13 && w[1] == 10 && w[2] == 13 && w[3] == 10) by {
            if w[0] == 13 && w[1] == 10 && w[2] == 13 && w[3] == 10 {
                assert(w =~= blank_line());
            }
        }
        if bytes[i] == 13 && bytes[i + 1] == 10 && bytes[i + 2] == 13 && bytes[i + 3] == 10 {
            return Some(i);
        }
        i += 1;
    }
    None
}

/// Whether a line ending stands in `bytes` at the position `i`.
fn is_crlf_at(bytes: &[u8], i: usize) -> (r: bool)
    requires
        i <= bytes@.len(),
    ensures
        r == bytes_at(bytes@, crlf(), i as int),
{
    if bytes.len() - i < 2 {
        return false;
    }
    let ghost w = bytes@.subrange(i as int, i + 2);
    assert(w == crlf() <==> w[0] == 13 && w[1] == 10) by {
        if w[0] == 13 && w[1] == 10 {
            assert(w =~= crlf());
        }
    }
    bytes[i] == 13 && bytes[i + 1] == 10
}

/// The position of the first line ending that is not before `start`.
pub fn find_crlf(bytes: &[u8], start: usize) -> (r: Option<usize>)
    requires
        start <= bytes@.len(),
    ensures
        match r {
            Some(i) => bytes_find(bytes@, crlf(), start as int) == Some(i as int) && start <= i && i
                + 2 <= bytes@.len(),
            None => bytes_find(bytes@, crlf(), start as int) is None,
        },
{
    let n: usize = bytes.len();
    let mut i: usize = start;
    while n - i >= 2
        invariant
            start <= i <= n,
            n == bytes@.len(),
            bytes_find(bytes@, crlf(), start as int) == bytes_find(bytes@, crlf(), i as int),
        decreases n - i,
    {
        if is_crlf_at(bytes, i) {
            return Some(i);
        }
        i += 1;
    }
    None
}

/// The chunk size that a size line gives, as text.
pub fn size_of_line(line: &str) -> (r: &str)
    ensures
        r@ == size_text(line@),
{
    match find(line, ";") {
        Some(i) => trim(take_chars(line, i)),
        None => trim(line),
    }
}

/// What a decoded body is: `None`, the bytes, or an error.
pub open spec fn body_view(r: Option<Result<Vec<u8>, String>>) -> Option<
    Result<Seq<u8>, Seq<char>>,
> {
    match r {
        None => None,
        Some(Ok(v)) => Some(Ok(v@)),
        Some(Err(e)) => Some(Err(e@)),
    }
}

/// The data of a chunked body, or `None` where the end of a chunk cannot be counted.
pub fn try_decode_chunked_body(bytes: &[u8]) -> (r: Option<Result<Vec<u8>, String>>)
    ensures
        body_view(r) == dechunked(bytes@, 0),
{
    let mut out: Vec<u8> = Vec::new();
    let mut pos: usize = 0;
    let n: usize = bytes.len();
    loop
        invariant
            pos <= n == bytes@.len(),
            dechunked(bytes@, 0) == match dechunked(bytes@, pos as int) {
                Some(Ok(rest)) => Some(Ok(out@ + rest)),
                other => other,
            },
        decreases n - pos,
    {
        let line_end = match find_crlf(bytes, pos) {
            Some(i) => i,
            None => {
                return Some(
                    Err("Chunked HTTP response is defective: chunk size not found".to_owned()),
                );
            },
        };
        let line = lossy_text(slice_subrange(bytes, pos, line_end));
        let size_hex = size_of_line(line.as_str());
        let size: usize = match parse_radix(size_hex, 16) {
            Ok(size) => size,
            Err(e) => {
                let mut text: String =
                    "Chunked HTTP response is defective: invalid chunk size '".to_owned();
                text.append(size_hex);
                text.append("': ");
                text.append(e.as_str());
                return Some(Err(text));
            },
        };
        let start: usize = line_end + 2;
        if size == 0 {
            assert(out@ + Seq::<u8>::empty() =~= out@);
            return Some(Ok(out));
        }
        if size > usize::MAX - start {
            return None;
        }
        if start + size > n {
            return Some(
                Err("Chunked HTTP response is defective: chunk longer than response".to_owned()),
            );
        }
        let ghost before = out@;
        let mut i: usize = start;
        while i < start + size
            invariant
                start <= i <= start + size <= n,
                n == bytes@.len(),
                out@ == before + bytes@.subrange(start as int, i as int),
            decreases start + size - i,
        {
            out.push(bytes[i]);
            assert(bytes@.subrange(start as int, i + 1) =~= bytes@.subrange(
                start as int,
                i as int,
            ).push(bytes@[i as int]));
            i += 1;
        }
        let end: usize = start + size;
        let ghost data = bytes@.subrange(start as int, end as int);
        pos = if is_crlf_at(bytes, end) {
            end + 2
        } else {
            end
        };
        proof {
            if let Some(Ok(rest)) = dechunked(bytes@, pos as int) {
                assert(before + (data + rest) =~= (before + data) + rest);
            }
        }
    }
}

/// The data of a chunked body.
pub fn decode_chunked_body(bytes: &[u8]) -> (r: Result<Vec<u8>, String>)
    requires
        dechunked(bytes@, 0) is Some,
    ensures
        body_view(Some(r)) == dechunked(bytes@, 0),
{
    match try_decode_chunked_body(bytes) {
        Some(r) => r,
        None => Ok(Vec::new()),
    }
}

/// A header that reports success.
pub open spec fn reports_success(header: Seq<char>) -> bool {
    begins(header, "HTTP/1.1 200"@) || begins(header, "HTTP/1.0 200"@)
}

/// A header, in small letters, that announces chunks.
pub open spec fn announces_chunks(lower_header: Seq<char>) -> bool {
    holds(lower_header, "transfer-encoding: chunked"@)
}

/// The error for an answer that reports no success.
pub open spec fn status_error(header: Seq<char>, body: Seq<char>) -> Seq<char> {
    "Ollama HTTP error:\n"@ + header + "\n"@ + body
}

/// The text of a body without white space at either end; an empty body is an error.
pub open spec fn body_text(text: Seq<char>) -> Result<Seq<char>, Seq<char>> {
    if trimmed(text).len() == 0 {
        Err("Ollama returned an empty body."@)
    } else {
        Ok(trimmed(text))
    }
}

/// The body text of an answer with the given header, or the error it amounts to.
pub open spec fn answer_text(header: Seq<char>, lower_header: Seq<char>, body: Seq<u8>) -> Option<
    Result<Seq<char>, Seq<char>>,
> {
    if !reports_success(header) {
        Some(Err(status_error(header, decoded(body))))
    } else if announces_chunks(lower_header) {
        match dechunked(body, 0) {
            None => None,
            Some(Err(e)) => Some(Err(e)),
            Some(Ok(data)) => Some(body_text(decoded(data))),
        }
    } else {
        Some(body_text(decoded(body)))
    }
}

/// The body text of an answer, or the error it amounts to. `None` where the end of a chunk cannot
/// be counted.
pub open spec fn http_answer(bytes: Seq<u8>) -> Option<Result<Seq<char>, Seq<char>>> {
    match bytes_find(bytes, blank_line(), 0) {
        None => Some(Err("HTTP response could not be read: no header end found"@)),
        Some(end) => {
            let header = decoded(bytes.subrange(0, end));
            answer_text(header, lowered(header), bytes.subrange(end + 4, bytes.len() as int))
        },
    }
}

/// What stands behind the first empty line of an answer is its body. Where the first line reports
/// success, the text of the body is the answer, without the white space around it and whether it was
/// sent in chunks or not; a body without any text is an error; and an answer that reports no success
/// is an error that tells all of it.
#[verifier::rlimit(40)]
pub proof fn answers_are_read_whole(header: Seq<u8>, body: Seq<u8>, chunks: Seq<Seq<u8>>)
    requires
        forall|j: int|
            0 <= j < header.len() ==> !bytes_at(header + blank_line() + body, blank_line(), j),
    ensures
        ({
            let answer = http_answer(header + blank_line() + body);
            let head = decoded(header);
            let success = begins(head, "HTTP/1.1 200"@) || begins(head, "HTTP/1.0 200"@);
            let in_chunks = holds(lowered(head), "transfer-encoding: chunked"@);
            &&& success && !in_chunks && !blank(decoded(body)) ==> answer == Some(
                Ok::<Seq<char>, Seq<char>>(trimmed(decoded(body))),
            )
            &&& success && !in_chunks && blank(decoded(body)) ==> (answer matches Some(Err(_)))
            &&& success && in_chunks && body == chunked(chunks) && body.len() <= usize::MAX && (
            forall|i: int| 0 <= i < chunks.len() ==> (#[trigger] chunks[i]).len() > 0) && !blank(
                decoded(data_of(chunks)),
            ) ==> answer == Some(Ok::<Seq<char>, Seq<char>>(trimmed(decoded(data_of(chunks)))))
            &&& !success ==> (answer matches Some(Err(e)) && holds(e, head) && ends(
                e,
                decoded(body),
            ))
        }),
{
    lemma_header_and_body(header, body);
    let head = decoded(header);
    if body == chunked(chunks) && body.len() <= usize::MAX && (forall|i: int|
        0 <= i < chunks.len() ==> (#[trigger] chunks[i]).len() > 0) {
        decoding_undoes_chunking(chunks);
    }
    lemma_error_tells_all(head, decoded(body));
}

/// The header of an answer ends at its first empty line, and the body begins behind it.
proof fn lemma_header_and_body(header: Seq<u8>, body: Seq<u8>)
    requires
        forall|j: int|
            0 <= j < header.len() ==> !bytes_at(header + blank_line() + body, blank_line(), j),
    ensures
        http_answer(header + blank_line() + body) == answer_text(
            decoded(header),
            lowered(decoded(header)),
            body,
        ),
{
    let bytes = header + blank_line() + body;
    lemma_found_there(header, blank_line(), body);
}

/// Bytes are found where they were put, if they do not stand before that, and parted there.
proof fn lemma_found_there(front: Seq<u8>, pat: Seq<u8>, behind: Seq<u8>)
    requires
        forall|j: int| 0 <= j < front.len() ==> !bytes_at(front + pat + behind, pat, j),
    ensures
        bytes_find(front + pat + behind, pat, 0) == Some(front.len() as int),
        (front + pat + behind).subrange(0, front.len() as int) == front,
        (front + pat + behind).subrange(
            front.len() + pat.len() as int,
            (front + pat + behind).len() as int,
        ) == behind,
{
    let bytes = front + pat + behind;
    let n = front.len() as int;
    assert(bytes.subrange(n, n + pat.len()) =~= pat);
    assert(bytes_at(bytes, pat, n));
    lemma_bytes_find(bytes, pat, 0);
    assert(bytes.subrange(0, n) =~= front);
    assert(bytes.subrange(n + pat.len(), bytes.len() as int) =~= behind);
}

/// The error for an answer that reports no success tells its header and its body.
proof fn lemma_error_tells_all(head: Seq<char>, text: Seq<char>)
    ensures
        holds(status_error(head, text), head),
        ends(status_error(head, text), text),
{
    let error = status_error(head, text);
    lemma_holds_middle("Ollama HTTP error:\n"@, head, "\n"@ + text);
    assert("Ollama HTTP error:\n"@ + head + ("\n"@ + text) =~= error);
    assert(error.subrange(error.len() - text.len(), error.len() as int) =~= text);
}

/// The line ending behind a chunk is passed over where it stands, and not missed where it does not: no
/// byte of what follows is lost.
pub proof fn nothing_behind_a_chunk_is_lost(bytes: Seq<u8>, end: int)
    ensures
        !bytes_at(bytes, crlf(), end) ==> behind_chunk(bytes, end) == end,
        bytes_at(bytes, crlf(), end) ==> behind_chunk(bytes, end) == end + crlf().len(),
{
}

/// An answer without an empty line is an error.
pub proof fn headers_have_an_end(bytes: Seq<u8>)
    requires
        forall|j: int| !bytes_at(bytes, blank_line(), j),
    ensures
        http_answer(bytes) matches Some(Err(_)),
{
    lemma_nowhere(bytes, blank_line());
}

/// What stands nowhere is not found.
proof fn lemma_nowhere(bytes: Seq<u8>, pat: Seq<u8>)
    requires
        forall|j: int| !bytes_at(bytes, pat, j),
    ensures
        bytes_find(bytes, pat, 0) is None,
{
    lemma_bytes_find(bytes, pat, 0);
}

/// The size of a chunk stands before the semicolon of its line, if there is one; what follows that
/// does not matter, and neither does white space around the size.
pub proof fn sizes_stand_before_a_semicolon(size: Seq<char>, more: Seq<char>)
    requires
        !size.contains(';'),
    ensures
        size_text(size + ";"@ + more) == trimmed(size),
        size_text(size) == trimmed(size),
{
    lemma_no_semicolon(size);
    lemma_semicolon_found(size, more);
    assert((size + ";"@ + more).take(size.len() as int) =~= size);
}

/// A text without a semicolon holds none.
proof fn lemma_no_semicolon(s: Seq<char>)
    requires
        !s.contains(';'),
    ensures
        first_at(s, ";"@) is None,
{
    reveal_strlit(";");
    lemma_first_at(s, ";"@);
    if first_at(s, ";"@) is Some {
        let i = first_at(s, ";"@)->0;
        assert(s.subrange(i, i + 1)[0] == ';');
        assert(s.contains(s[i]));
    }
}

/// A semicolon is found where it was put.
#[verifier::rlimit(40)]
proof fn lemma_semicolon_found(s: Seq<char>, more: Seq<char>)
    requires
        !s.contains(';'),
    ensures
        first_at(s + ";"@ + more, ";"@) == Some(s.len() as int),
{
    reveal_strlit(";");
    let line = s + ";"@ + more;
    let n = s.len() as int;
    assert(line.subrange(n, n + 1) =~= ";"@);
    assert forall|j: int| 0 <= j < n implies !occurs_at(line, ";"@, j) by {
        if occurs_at(line, ";"@, j) {
            assert(line.subrange(j, j + 1)[0] == ';');
            assert(s.contains(s[j]));
        }
    }
    lemma_found_first(line, ";"@, n);
}

/// What a read answer is.
pub open spec fn answer_view(r: Result<String, String>) -> Result<Seq<char>, Seq<char>> {
    match r {
        Ok(s) => Ok(s@),
        Err(e) => Err(e@),
    }
}

/// The text of a body without white space at either end, or the error for an empty one.
pub fn finish_body(text: &str) -> (r: Result<String, String>)
    ensures
        answer_view(r) == body_text(text@),
{
    let t = trim(text);
    if t.is_empty() {
        Err("Ollama returned an empty body.".to_owned())
    } else {
        Ok(t.to_owned())
    }
}

/// The body text of an answer with the given header, or the error it amounts to.
pub fn read_answer(header: &str, lower_header: &str, body: &[u8]) -> (r: Result<String, String>)
    requires
        answer_text(header@, lower_header@, body@) is Some,
    ensures
        Some(answer_view(r)) == answer_text(header@, lower_header@, body@),
{
    if !starts_with(header, "HTTP/1.1 200") && !starts_with(header, "HTTP/1.0 200") {
        let text = lossy_text(body);
        let mut error: String = "Ollama HTTP error:\n".to_owned();
        error.append(header);
        error.append("\n");
        error.append(text.as_str());
        return Err(error);
    }
    if contains(lower_header, "transfer-encoding: chunked") {
        match decode_chunked_body(body) {
            Ok(data) => {
                let text = lossy_text(data.as_slice());
                finish_body(text.as_str())
            },
            Err(e) => Err(e),
        }
    } else {
        let text = lossy_text(body);
        finish_body(text.as_str())
    }
}

/// The body text of an answer of the model server, or the error it amounts to.
pub fn parse_http_body(bytes: Vec<u8>) -> (r: Result<String, String>)
    requires
        http_answer(bytes@) is Some,
    ensures
        Some(answer_view(r)) == http_answer(bytes@),
{
    let all = bytes.as_slice();
    match find_header_end(all) {
        None => Err("HTTP response could not be read: no header end found".to_owned()),
        Some(end) => {
            let total: usize = all.len();
            let header = lossy_text(slice_subrange(all, 0, end));
            let lower = to_lowercase(header.as_str());
            read_answer(header.as_str(), lower.as_str(), slice_subrange(all, end + 4, total))
        },
    }
}

/// The body text of an answer of the model server, or `None` where the end of one of its chunks
/// cannot be counted.
pub fn try_parse_http_body(bytes: Vec<u8>) -> (r: Option<Result<String, String>>)
    ensures
        match r {
            Some(a) => http_answer(bytes@) == Some(answer_view(a)),
            None => http_answer(bytes@) is None,
        },
{
    let all = bytes.as_slice();
    let countable = match find_header_end(all) {
        None => true,
        Some(end) => {
            let total: usize = all.len();
            let header = lossy_text(slice_subrange(all, 0, end));
            let lower = to_lowercase(header.as_str());
            let success = starts_with(header.as_str(), "HTTP/1.1 200") || starts_with(
                header.as_str(),
                "HTTP/1.0 200",
            );
            !success || !contains(lower.as_str(), "transfer-encoding: chunked")
                || try_decode_chunked_body(slice_subrange(all, end + 4, total)).is_some()
        },
    };
    if countable {
        Some(parse_http_body(bytes))
    } else {
        None
    }
}

/// What the server's answer to a prompt amounts to: its error where it gives one, or else its
/// response, or nothing where it gives neither.
pub open spec fn generated(response: Option<Seq<char>>, error: Option<Seq<char>>) -> Result<
    Seq<char>,
    Seq<char>,
> {
    match (error, response) {
        (Some(e), _) => Err(e),
        (None, Some(t)) => Ok(t),
        (None, None) => Ok(Seq::empty()),
    }
}

/// An error of the server is never taken for an answer, and without one the answer is its response.
pub proof fn errors_are_not_answers(response: Option<Seq<char>>, error: Option<Seq<char>>)
    ensures
        generated(response, error) is Err <==> error is Some,
        error matches Some(e) ==> generated(response, error) == Err::<Seq<char>, Seq<char>>(e),
        error is None ==> (response matches Some(t) ==> generated(response, error) == Ok::<
            Seq<char>,
            Seq<char>,
        >(t)),
{
}

/// What the server's answer to a prompt amounts to: its error where it gives one, or else its
/// response, or nothing where it gives neither.
pub fn generated_answer(response: Option<String>, error: Option<String>) -> (r: Result<
    String,
    String,
>)
    ensures
        answer_view(r) == generated(opt_text(response), opt_text(error)),
        answer_view(r) == match (opt_text(error), opt_text(response)) {
            (Some(e), _) => Err::<Seq<char>, Seq<char>>(e),
            (None, Some(t)) => Ok(t),
            (None, None) => Ok(Seq::empty()),
        },
{
    match error {
        Some(e) => Err(e),
        None => match response {
            Some(t) => Ok(t),
            None => Ok(String::new()),
        },
    }
}

/// The error for an answer whose body is not the JSON it should be.
pub fn answer_parse_error(error: &str, body: &str) -> (r: String)
    ensures
        r@ == "JSON parser error: "@ + error@ + "\nresponse start:\n"@ + first_chars(body@, 600),
{
    let mut text: String = "JSON parser error: ".to_owned();
    text.append(error);
    text.append("\nresponse start:\n");
    text.append(take_up_to(body, 600));
    text
}

// ---------------------------------------------------------------------------------------------
// Requests
// ---------------------------------------------------------------------------------------------

/// The request that asks for the installed models.
pub fn tags_request() -> (r: String)
    ensures
        r@
            == "GET /api/tags HTTP/1.1\r\nHost: 127.0.0.1:11434\r\nAccept: application/json\r\nConnection: close\r\n\r\n"@,
{
    "GET /api/tags HTTP/1.1\r\nHost: 127.0.0.1:11434\r\nAccept: application/json\r\nConnection: close\r\n\r\n".to_owned()
}

/// The request that hands a JSON body to a model, with the body's length in bytes.
pub open spec fn generate_text(body: Seq<char>) -> Seq<char> {
    "POST /api/generate HTTP/1.1\r\nHost: 127.0.0.1:11434\r\nContent-Type: application/json\r\nAccept: application/json\r\nContent-Length: "@
        + decimal(encode_utf8(body).len()) + "\r\nConnection: close\r\n\r\n"@ + body
}

/// A request ends with its body, whole and behind an empty line, and tells before that how many bytes
/// the body takes.
pub proof fn requests_tell_their_length(body: Seq<char>)
    ensures
        ends(generate_text(body), "\r\n\r\n"@ + body),
        holds(generate_text(body), "Content-Length: "@ + decimal(byte_len(body)) + "\r\n"@),
        begins(generate_text(body), "POST /api/generate HTTP/1.1\r\n"@),
{
    lemma_byte_len_encoding(body);
    lemma_request_words();
    lemma_request_parts(
        "POST /api/generate HTTP/1.1\r\nHost: 127.0.0.1:11434\r\nContent-Type: application/json\r\nAccept: application/json\r\nContent-Length: "@,
        decimal(byte_len(body)),
        "\r\nConnection: close\r\n\r\n"@,
        body,
        "POST /api/generate HTTP/1.1\r\n"@,
        "Content-Length: "@,
        "\r\n"@,
        "\r\n\r\n"@,
    );
}

/// A text of four parts begins, goes on and ends as its parts do.
#[verifier::rlimit(40)]
proof fn lemma_request_parts(
    head: Seq<char>,
    length: Seq<char>,
    tail: Seq<char>,
    body: Seq<char>,
    first: Seq<char>,
    last: Seq<char>,
    next: Seq<char>,
    gap: Seq<char>,
)
    requires
        begins(head, first),
        ends(head, last),
        begins(tail, next),
        ends(tail, gap),
    ensures
        ({
            let all = head + length + tail + body;
            begins(all, first) && holds(all, last + length + next) && ends(all, gap + body)
        }),
{
    let all = head + length + tail + body;
    let front = head.take(head.len() - last.len());
    let rest = tail.skip(next.len() as int);
    assert(head =~= front + last) by {
        assert(head.subrange(head.len() - last.len(), head.len() as int) == last);
    }
    assert(tail =~= next + rest) by {
        assert(tail.subrange(0, next.len() as int) == next);
    }
    let part = last + length + next;
    assert(all =~= front + part + (rest + body));
    lemma_holds_middle(front, part, rest + body);
    assert(all.subrange(0, first.len() as int) =~= head.subrange(0, first.len() as int));
    let end = gap + body;
    assert(tail.subrange(tail.len() - gap.len(), tail.len() as int) == gap);
    assert(all.subrange(all.len() - end.len(), all.len() as int) =~= tail.subrange(
        tail.len() - gap.len(),
        tail.len() as int,
    ) + body);
}

/// How the fixed parts of a request begin and end.
#[verifier::rlimit(40)]
proof fn lemma_request_words()
    ensures
        ({
            let head =
                "POST /api/generate HTTP/1.1\r\nHost: 127.0.0.1:11434\r\nContent-Type: application/json\r\nAccept: application/json\r\nContent-Length: "@;
            let tail = "\r\nConnection: close\r\n\r\n"@;
            &&& begins(head, "POST /api/generate HTTP/1.1\r\n"@)
            &&& ends(head, "Content-Length: "@)
            &&& begins(tail, "\r\n"@)
            &&& ends(tail, "\r\n\r\n"@)
        }),
{
    reveal_strlit(
        "POST /api/generate HTTP/1.1\r\nHost: 127.0.0.1:11434\r\nContent-Type: application/json\r\nAccept: application/json\r\nContent-Length: ",
    );
    reveal_strlit("POST /api/generate HTTP/1.1\r\n");
    reveal_strlit("Content-Length: ");
    reveal_strlit("\r\nConnection: close\r\n\r\n");
    reveal_strlit("\r\n");
    reveal_strlit("\r\n\r\n");
    let head =
        "POST /api/generate HTTP/1.1\r\nHost: 127.0.0.1:11434\r\nContent-Type: application/json\r\nAccept: application/json\r\nContent-Length: "@;
    let tail = "\r\nConnection: close\r\n\r\n"@;
    assert(head.subrange(0, 29) =~= "POST /api/generate HTTP/1.1\r\n"@);
    assert(head.subrange(head.len() - 16, head.len() as int) =~= "Content-Length: "@);
    assert(tail.subrange(0, 2) =~= "\r\n"@);
    assert(tail.subrange(tail.len() - 4, tail.len() as int) =~= "\r\n\r\n"@);
}

/// The request that hands a JSON body to a model, with the body's length in bytes.
pub fn generate_request(body: &str) -> (r: String)
    ensures
        r@ == generate_text(body@),
        r@
            == "POST /api/generate HTTP/1.1\r\nHost: 127.0.0.1:11434\r\nContent-Type: application/json\r\nAccept: application/json\r\nContent-Length: "@
            + decimal(encode_utf8(body@).len()) + "\r\nConnection: close\r\n\r\n"@ + body@,
{
    let mut out: String =
        "POST /api/generate HTTP/1.1\r\nHost: 127.0.0.1:11434\r\nContent-Type: application/json\r\nAccept: application/json\r\nContent-Length: ".to_owned();
    out.append(to_decimal(body.as_bytes().len() as u128).as_str());
    out.append("\r\nConnection: close\r\n\r\n");
    out.append(body);
    out
}

} // verus!
