//! HTTP/1.1 body framing: chunked transfer decoding (RFC 7230 section
//! 4.1), and the `Transfer-Encoding` and `Content-Length` headers.
use vstd::prelude::*;

verus! {

/// Why a chunked body failed to decode.
#[derive(Debug, Clone, Copy, PartialEq, Eq, Structural)]
pub enum ChunkedError {
    /// A chunk-size line was not terminated by CRLF before input ran out.
    UnterminatedSizeLine,
    /// A chunk-size line held no valid hex number.
    InvalidChunkSize,
    /// The declared chunk data ran past the input.
    TruncatedChunkData,
    /// Chunk data was not followed by CRLF.
    MissingChunkCrlf,
    /// Input ended before the final zero-length chunk.
    MissingFinalChunk,
    /// The body does not fit the output buffer.
    OutputTooSmall,
}

/// Errors of the TCP client.
#[derive(Debug, Clone, Copy, PartialEq, Eq, Structural)]
pub enum TcpError {
    /// The network stack is not initialized.
    NotInitialized,
    /// A stream is already open.
    SocketBusy,
    /// The connect call was refused.
    ConnectFailed,
    /// The socket is not in a state that allows the operation.
    NotConnected,
    /// The peer closed; no more data.
    Eof,
}

// ---------------------------------------------------------------- helpers

/// Index of the CR of the first CRLF at or after `from`.
pub open spec fn crlf_from(b: Seq<u8>, from: int) -> Option<int>
    decreases b.len() - from,
{
    if from < 0 || from + 1 >= b.len() {
        None
    } else if b[from] == 0x0Du8 && b[from + 1] == 0x0Au8 {
        Some(from)
    } else {
        crlf_from(b, from + 1)
    }
}

proof fn lemma_crlf_from(b: Seq<u8>, from: int)
    ensures crlf_from(b, from) matches Some(k) ==> from <= k && k + 1 < b.len() && b[k] == 0x0Du8 && b[k + 1] == 0x0Au8,
    decreases b.len() - from,
{
    if from >= 0 && from + 1 < b.len() && !(b[from] == 0x0Du8 && b[from + 1] == 0x0Au8) {
        lemma_crlf_from(b, from + 1);
    }
}

fn find_crlf(buf: &[u8], from: usize) -> (r: Option<usize>)
    ensures
        r is Some <==> crlf_from(buf@, from as int) is Some,
        r matches Some(k) ==> k == crlf_from(buf@, from as int)->0 && from <= k && k + 1 < buf@.len(),
{
    proof { lemma_crlf_from(buf@, from as int); }
    if from >= buf.len() {
        return None;
    }
    let n = buf.len();
    let mut i = from;
    while i < n - 1
        invariant from <= i <= buf@.len(), n == buf@.len(), n >= 1,
            crlf_from(buf@, from as int) == crlf_from(buf@, i as int),
        decreases buf@.len() - i,
    {
        if buf[i] == 0x0D && buf[i + 1] == 0x0A {
            return Some(i);
        }
        i += 1;
    }
    None
}

/// ASCII lowercase.
pub open spec fn lower(c: u8) -> u8 {
    if 0x41 <= c <= 0x5A { (c + 0x20) as u8 } else { c }
}

fn to_lower(c: u8) -> (r: u8)
    ensures r == lower(c),
{
    if 0x41 <= c && c <= 0x5A { c + 0x20 } else { c }
}

/// Whether `a` and `b` are equal ignoring ASCII case.
pub open spec fn eq_fold(a: Seq<u8>, b: Seq<u8>) -> bool {
    a.len() == b.len() && forall|k: int| 0 <= k < a.len() ==> lower(#[trigger] a[k]) == lower(b[k])
}

fn eq_ignore_case(a: &[u8], b: &[u8]) -> (r: bool)
    ensures r == eq_fold(a@, b@),
{
    if a.len() != b.len() {
        return false;
    }
    let mut k: usize = 0;
    while k < a.len()
        invariant k <= a@.len(), a@.len() == b@.len(), forall|j: int| 0 <= j < k ==> lower(#[trigger] a@[j]) == lower(b@[j]),
        decreases a@.len() - k,
    {
        if to_lower(a[k]) != to_lower(b[k]) {
            return false;
        }
        k += 1;
    }
    true
}

/// Whether the lowercase `token` occurs in `h` ignoring the case of `h`.
pub open spec fn has_token(h: Seq<u8>, token: Seq<u8>) -> bool {
    token.len() > 0 && token.len() <= h.len() && exists|i: int| 0 <= i <= h.len() - token.len()
        && #[trigger] token_at(h, token, i)
}

/// `token` occurs at `i` in `h`, ignoring the case of `h`.
pub open spec fn token_at(h: Seq<u8>, token: Seq<u8>, i: int) -> bool {
    forall|k: int| 0 <= k < token.len() ==> lower(#[trigger] h[i + k]) == token[k]
}

fn contains_token_ignore_case(h: &[u8], token: &[u8]) -> (r: bool)
    ensures r == has_token(h@, token@),
{
    if token.len() == 0 || token.len() > h.len() {
        return false;
    }
    let n = h.len();
    let last = n - token.len();
    let mut i: usize = 0;
    while i <= last
        invariant i <= last + 1, last == h@.len() - token@.len(), token@.len() > 0, token@.len() <= h@.len(),
            n == h@.len(),
            forall|i2: int| 0 <= i2 < i ==> !#[trigger] token_at(h@, token@, i2),
        decreases last + 1 - i,
    {
        let mut k: usize = 0;
        let mut ok = true;
        while k < token.len()
            invariant k <= token@.len(), i <= last, last == h@.len() - token@.len(), n == h@.len(),
                token@.len() <= h@.len(),
                ok == forall|j: int| 0 <= j < k ==> lower(#[trigger] h@[i + j]) == token@[j],
            decreases token@.len() - k,
        {
            if to_lower(h[i + k]) != token[k] {
                ok = false;
            }
            k += 1;
        }
        if ok {
            assert(token_at(h@, token@, i as int));
            return true;
        }
        i += 1;
    }
    false
}

/// Value of a hex digit, any case.
pub open spec fn hex_digit_value(c: u8) -> Option<int> {
    if 0x30 <= c <= 0x39 { Some(c - 0x30) }
    else if 0x61 <= c <= 0x66 { Some(c - 0x61 + 10) }
    else if 0x41 <= c <= 0x46 { Some(c - 0x41 + 10) }
    else { None }
}

/// The number the hex digits `s` spell; none on a non-hex byte.
pub open spec fn hex_number(s: Seq<u8>) -> Option<int>
    decreases s.len(),
{
    if s.len() == 0 {
        Some(0)
    } else {
        match (hex_number(s.drop_last()), hex_digit_value(s.last())) {
            (Some(v), Some(d)) => Some(16 * v + d),
            _ => None,
        }
    }
}

/// Space or tab.
pub open spec fn is_blank(c: u8) -> bool {
    c == 0x20 || c == 0x09
}

/// `s` without leading and trailing blanks: its start and end.
pub open spec fn trim_start(s: Seq<u8>, i: int) -> int
    decreases s.len() - i,
{
    if i < s.len() && is_blank(s[i]) { trim_start(s, i + 1) } else { i }
}

pub open spec fn trim_end(s: Seq<u8>, start: int, e: int) -> int
    decreases e,
{
    if e > start && e > 0 && is_blank(s[e - 1]) { trim_end(s, start, e - 1) } else { e }
}

/// A chunk size: hex digits between optional blanks; none if empty,
/// not hex, or above `usize::MAX`.
pub open spec fn parse_hex_spec(f: Seq<u8>) -> Option<int> {
    let st = trim_start(f, 0);
    let en = trim_end(f, st, f.len() as int);
    if en <= st {
        None
    } else {
        match hex_number(f.subrange(st, en)) {
            Some(v) => if v <= usize::MAX { Some(v) } else { None },
            None => None,
        }
    }
}

proof fn lemma_hex_number_nonneg(s: Seq<u8>)
    ensures hex_number(s) matches Some(v) ==> v >= 0,
    decreases s.len(),
{
    if s.len() > 0 { lemma_hex_number_nonneg(s.drop_last()); }
}

proof fn lemma_trim(s: Seq<u8>, i: int)
    requires 0 <= i <= s.len(),
    ensures i <= trim_start(s, i) <= s.len(),
        forall|k: int| i <= k < trim_start(s, i) ==> is_blank(#[trigger] s[k]),
        trim_start(s, i) < s.len() ==> !is_blank(s[trim_start(s, i)]),
    decreases s.len() - i,
{
    if i < s.len() && is_blank(s[i]) { lemma_trim(s, i + 1); }
}

proof fn lemma_trim_end(s: Seq<u8>, start: int, e: int)
    requires 0 <= start <= e <= s.len(),
    ensures start <= trim_end(s, start, e) <= e,
        trim_end(s, start, e) > start ==> !is_blank(s[trim_end(s, start, e) - 1]),
    decreases e,
{
    if e > start && e > 0 && is_blank(s[e - 1]) { lemma_trim_end(s, start, e - 1); }
}

fn parse_hex(field: &[u8]) -> (r: Option<usize>)
    ensures
        r is Some <==> parse_hex_spec(field@) is Some,
        r matches Some(v) ==> v == parse_hex_spec(field@)->0,
{
    let mut start: usize = 0;
    let mut end: usize = field.len();
    while start < end && (field[start] == 0x20 || field[start] == 0x09)
        invariant start <= end, end == field@.len(), trim_start(field@, 0) == trim_start(field@, start as int),
        decreases end - start,
    {
        start += 1;
    }
    proof {
        lemma_trim(field@, start as int);
    }
    assert(start as int == trim_start(field@, 0));
    while end > start && (field[end - 1] == 0x20 || field[end - 1] == 0x09)
        invariant start <= end <= field@.len(), trim_end(field@, start as int, field@.len() as int)
            == trim_end(field@, start as int, end as int),
        decreases end,
    {
        end -= 1;
    }
    proof {
        lemma_trim_end(field@, start as int, end as int);
        if end > start && end > 0 {
            assert(!is_blank(field@[end - 1]));
        }
        assert(trim_end(field@, start as int, end as int) == end as int);
    }
    if end <= start {
        return None;
    }
    let mut value: usize = 0;
    let mut k: usize = start;
    while k < end
        invariant start <= k <= end <= field@.len(),
            start as int == trim_start(field@, 0), end as int == trim_end(field@, start as int, field@.len() as int),
            end > start,
            hex_number(field@.subrange(start as int, k as int)) == Some(value as int),
        decreases end - k,
    {
        assert(field@.subrange(start as int, k as int + 1).drop_last() =~= field@.subrange(start as int, k as int));
        let b = field[k];
        let digit: usize = if 0x30 <= b && b <= 0x39 { (b - 0x30) as usize }
            else if 0x61 <= b && b <= 0x66 { (b - 0x61 + 10) as usize }
            else if 0x41 <= b && b <= 0x46 { (b - 0x41 + 10) as usize }
            else {
                proof { lemma_hex_none_extends(field@.subrange(start as int, end as int), (k - start) as int); }
                assert(field@.subrange(start as int, end as int).subrange(0, (k - start) as int + 1)
                    =~= field@.subrange(start as int, k as int + 1));
                return None;
            };
        if value > (usize::MAX - digit) / 16 {
            proof {
                assert(field@.subrange(start as int, end as int).subrange(0, (k - start) as int + 1)
                    =~= field@.subrange(start as int, k as int + 1));
                lemma_hex_too_big(field@.subrange(start as int, end as int), (k - start) as int + 1);
            }
            return None;
        }
        value = value * 16 + digit;
        k += 1;
    }
    Some(value)
}

proof fn lemma_hex_none_extends(s: Seq<u8>, i: int)
    requires 0 <= i < s.len(), hex_digit_value(s[i]) is None,
    ensures hex_number(s) is None,
    decreases s.len(),
{
    if i < s.len() - 1 {
        lemma_hex_none_extends(s.drop_last(), i);
    }
}

proof fn lemma_hex_grows(s: Seq<u8>, i: int)
    requires 0 <= i <= s.len(), hex_number(s) is Some,
    ensures hex_number(s.subrange(0, i)) is Some, hex_number(s.subrange(0, i))->0 <= hex_number(s)->0,
    decreases s.len(),
{
    assert(s.subrange(0, s.len() as int) =~= s);
    if i < s.len() {
        lemma_hex_grows(s.drop_last(), i);
        assert(s.drop_last().subrange(0, i) =~= s.subrange(0, i));
        lemma_hex_number_nonneg(s.drop_last());
    }
}

proof fn lemma_hex_too_big(s: Seq<u8>, i: int)
    requires 0 < i <= s.len(), hex_number(s.subrange(0, i)) matches Some(v) && v > usize::MAX,
    ensures parse_hex_value_none(s),
{
    if hex_number(s) is Some {
        lemma_hex_grows(s, i);
    }
}

/// `s` does not spell a hex number up to `usize::MAX`.
pub open spec fn parse_hex_value_none(s: Seq<u8>) -> bool {
    hex_number(s) matches Some(v) ==> v > usize::MAX
}

// ---------------------------------------------------------------- chunked

/// The size field of a size line: up to the first ';'.
pub open spec fn size_field(line: Seq<u8>) -> Seq<u8> {
    line.subrange(0, semi_index(line, 0))
}

pub open spec fn semi_index(line: Seq<u8>, i: int) -> int
    decreases line.len() - i,
{
    if i < 0 || i >= line.len() { line.len() as int } else if line[i] == 0x3Bu8 { i } else { semi_index(line, i + 1) }
}

proof fn lemma_semi_index(line: Seq<u8>, i: int)
    requires 0 <= i <= line.len(),
    ensures i <= semi_index(line, i) <= line.len(),
        semi_index(line, i) < line.len() ==> line[semi_index(line, i)] == 0x3Bu8,
        forall|k: int| i <= k < semi_index(line, i) ==> #[trigger] line[k] != 0x3Bu8,
    decreases line.len() - i,
{
    if i < line.len() && line[i] != 0x3Bu8 { lemma_semi_index(line, i + 1); }
}

/// The body a chunked stream from `i` decodes to, with `room` bytes of
/// output left; at most `fuel` chunks are read. Input that ends where a
/// size line should start has no final chunk.
pub open spec fn dechunk(inp: Seq<u8>, i: int, room: int, fuel: nat) -> Result<Seq<u8>, ChunkedError>
    decreases fuel,
{
    if fuel == 0 || i >= inp.len() {
        Err(ChunkedError::MissingFinalChunk)
    } else {
        match crlf_from(inp, i) {
            None => Err(ChunkedError::UnterminatedSizeLine),
            Some(le) => match parse_hex_spec(size_field(inp.subrange(i, le))) {
                None => Err(ChunkedError::InvalidChunkSize),
                Some(n) => {
                    let j = le + 2;
                    if n == 0 {
                        Ok(Seq::empty())
                    } else if j + n > inp.len() {
                        Err(ChunkedError::TruncatedChunkData)
                    } else if n > room {
                        Err(ChunkedError::OutputTooSmall)
                    } else if j + n + 2 > inp.len() || inp[j + n] != 0x0Du8 || inp[j + n + 1] != 0x0Au8 {
                        Err(ChunkedError::MissingChunkCrlf)
                    } else {
                        match dechunk(inp, j + n + 2, room - n, (fuel - 1) as nat) {
                            Ok(rest) => Ok(inp.subrange(j, j + n) + rest),
                            Err(e) => Err(e),
                        }
                    }
                },
            },
        }
    }
}

/// The body of a successful decode (empty otherwise).
pub open spec fn ok_body(r: Result<Seq<u8>, ChunkedError>) -> Seq<u8> {
    match r {
        Ok(b) => b,
        Err(_) => Seq::empty(),
    }
}

/// What decoding `inp` into `cap` bytes of output gives.
pub open spec fn decode_chunked_spec(inp: Seq<u8>, cap: int) -> Result<Seq<u8>, ChunkedError> {
    dechunk(inp, 0, cap, (inp.len() + 1) as nat)
}

/// Decode a chunked body (the bytes after the header block) into `out`;
/// the body length. Chunk extensions and trailers are skipped; the
/// zero-length chunk ends the body.
#[verifier::rlimit(40)]
pub fn decode_chunked(input: &[u8], out: &mut [u8]) -> (r: Result<usize, ChunkedError>)
    ensures
        final(out)@.len() == old(out)@.len(),
        r is Ok <==> decode_chunked_spec(input@, old(out)@.len() as int) is Ok,
        r matches Err(e) ==> decode_chunked_spec(input@, old(out)@.len() as int) == Err::<Seq<u8>, ChunkedError>(e),
        r matches Ok(n) ==> n == ok_body(decode_chunked_spec(input@, old(out)@.len() as int)).len()
            && final(out)@.subrange(0, n as int) == ok_body(decode_chunked_spec(input@, old(out)@.len() as int)),
        r matches Ok(n) ==> final(out)@.subrange(n as int, old(out)@.len() as int)
            == old(out)@.subrange(n as int, old(out)@.len() as int),
{
    let ghost inp = input@;
    let ghost cap = out@.len() as int;
    let olen = out.len();
    let ilen = input.len();
    let mut i: usize = 0;
    let mut written: usize = 0;
    let ghost mut fuel: nat = (inp.len() + 1) as nat;
    loop
        invariant
            inp == input@,
            ilen == inp.len(),
            cap == olen,
            out@.len() == olen,
            olen == old(out)@.len(),
            written <= olen,
            out@.subrange(written as int, olen as int) == old(out)@.subrange(written as int, olen as int),
            i <= inp.len(),
            fuel + i >= inp.len() + 1,
            decode_chunked_spec(inp, cap) == match dechunk(inp, i as int, cap - written, fuel) {
                Ok(rest) => Ok(out@.subrange(0, written as int) + rest),
                Err(e) => Err(e),
            },
        decreases inp.len() - i,
    {
        let ghost i0 = i as int;
        let ghost w0 = written as int;
        let ghost pre0 = out@.subrange(0, written as int);
        if i >= ilen {
            return Err(ChunkedError::MissingFinalChunk);
        }
        proof { lemma_crlf_from(inp, i as int); }
        let line_end = match find_crlf(input, i) {
            Some(le) => le,
            None => {
                return Err(ChunkedError::UnterminatedSizeLine);
            }
        };
        let size_line = vstd::slice::slice_subrange(input, i, line_end);
        let mut semi: usize = 0;
        while semi < size_line.len() && size_line[semi] != 0x3B
            invariant semi <= size_line@.len(), semi_index(size_line@, 0) == semi_index(size_line@, semi as int),
            decreases size_line@.len() - semi,
        {
            semi += 1;
        }
        let size_field_s = vstd::slice::slice_subrange(size_line, 0, semi);
        assert(size_field_s@ == size_field(inp.subrange(i as int, line_end as int)));
        let chunk_size = match parse_hex(size_field_s) {
            Some(n) => n,
            None => {
                return Err(ChunkedError::InvalidChunkSize);
            }
        };
        i = line_end + 2;
        if chunk_size == 0 {
            assert(out@.subrange(0, written as int) + Seq::<u8>::empty() =~= out@.subrange(0, written as int));
            return Ok(written);
        }
        if chunk_size > input.len() - i {
            return Err(ChunkedError::TruncatedChunkData);
        }
        let data_end = i + chunk_size;
        if chunk_size > olen - written {
            return Err(ChunkedError::OutputTooSmall);
        }
        let data = vstd::slice::slice_subrange(input, i, data_end);
        let ghost before = out@;
        crate::bytes::copy_into(out, written, data);
        assert(out@.subrange(0, written + chunk_size) =~= before.subrange(0, written as int) + data@);
        assert(out@.subrange(written + chunk_size, olen as int)
            =~= before.subrange(written + chunk_size, olen as int));
        assert(before.subrange(written + chunk_size, olen as int)
            =~= before.subrange(written as int, olen as int).subrange(chunk_size as int, olen - written));
        assert(old(out)@.subrange(written + chunk_size, olen as int)
            =~= old(out)@.subrange(written as int, olen as int).subrange(chunk_size as int, olen - written));
        written = written + chunk_size;
        i = data_end;
        if ilen - i < 2 || input[i] != 0x0D || input[i + 1] != 0x0A {
            return Err(ChunkedError::MissingChunkCrlf);
        }
        i += 2;
        proof {
            let f0 = fuel;
            let f2 = (fuel - 1) as nat;
            assert(dechunk(inp, i0, cap - w0, f0) == match dechunk(inp, i as int, cap - written, f2) {
                Ok(rest) => Ok(data@ + rest),
                Err(e) => Err(e),
            });
            fuel = f2;
            assert(out@.subrange(0, written as int) =~= pre0 + data@);
            match dechunk(inp, i as int, cap - written, f2) {
                Ok(rest) => {
                    assert(pre0 + (data@ + rest) =~= out@.subrange(0, written as int) + rest);
                }
                Err(e) => {}
            }
        }
    }
}

// ---------------------------------------------------------------- headers

/// "transfer-encoding:".
pub open spec fn te_name() -> Seq<u8> {
    seq![0x74u8, 0x72u8, 0x61u8, 0x6Eu8, 0x73u8, 0x66u8, 0x65u8, 0x72u8, 0x2Du8, 0x65u8, 0x6Eu8, 0x63u8, 0x6Fu8,
        0x64u8, 0x69u8, 0x6Eu8, 0x67u8, 0x3Au8]
}

/// "content-length:".
pub open spec fn cl_name() -> Seq<u8> {
    seq![0x63u8, 0x6Fu8, 0x6Eu8, 0x74u8, 0x65u8, 0x6Eu8, 0x74u8, 0x2Du8, 0x6Cu8, 0x65u8, 0x6Eu8, 0x67u8, 0x74u8,
        0x68u8, 0x3Au8]
}

/// "chunked".
pub open spec fn chunked_token() -> Seq<u8> {
    seq![0x63u8, 0x68u8, 0x75u8, 0x6Eu8, 0x6Bu8, 0x65u8, 0x64u8]
}

/// End of the header value starting at `vs`: its CRLF, or the end.
pub open spec fn value_end(h: Seq<u8>, vs: int) -> int {
    match crlf_from(h, vs) {
        Some(k) => k,
        None => h.len() as int,
    }
}

/// A `Transfer-Encoding` field at `i` whose value holds `chunked`.
pub open spec fn chunked_at(h: Seq<u8>, i: int) -> bool {
    let vs = i + 18;
    0 <= i && vs <= h.len() && eq_fold(h.subrange(i, vs), te_name())
        && has_token(h.subrange(vs, value_end(h, vs)), chunked_token())
}

/// Whether the header block declares chunked transfer encoding (field
/// name and token in any case).
pub fn is_chunked(headers: &[u8]) -> (r: bool)
    ensures r == exists|i: int| #[trigger] chunked_at(headers@, i),
{
    let name: [u8; 18] = [0x74, 0x72, 0x61, 0x6E, 0x73, 0x66, 0x65, 0x72, 0x2D, 0x65, 0x6E, 0x63, 0x6F, 0x64, 0x69,
        0x6E, 0x67, 0x3A];
    assert(name@ =~= te_name());
    let token: [u8; 7] = [0x63, 0x68, 0x75, 0x6E, 0x6B, 0x65, 0x64];
    assert(token@ =~= chunked_token());
    let n = headers.len();
    let mut i: usize = 0;
    while i <= n && n - i >= 18
        invariant i <= n + 1, n == headers@.len(), name@ == te_name(), token@ == chunked_token(),
            forall|j: int| 0 <= j < i ==> !#[trigger] chunked_at(headers@, j),
        decreases n + 1 - i,
    {
        if eq_ignore_case(vstd::slice::slice_subrange(headers, i, i + 18), name.as_slice()) {
            let vs = i + 18;
            let ve = match find_crlf(headers, vs) {
                Some(k) => k,
                None => n,
            };
            proof { lemma_crlf_from(headers@, vs as int); }
            if contains_token_ignore_case(vstd::slice::slice_subrange(headers, vs, ve), token.as_slice()) {
                assert(chunked_at(headers@, i as int));
                return true;
            }
        }
        i += 1;
    }
    assert forall|j: int| !#[trigger] chunked_at(headers@, j) by {
        if 0 <= j && j + 18 <= n { assert(j < i); }
    }
    false
}

/// Whether position `i` starts a line.
pub open spec fn line_start(h: Seq<u8>, i: int) -> bool {
    i == 0 || (i >= 2 && h[i - 2] == 0x0Du8 && h[i - 1] == 0x0Au8)
}

/// A `Content-Length` field name at `i`, at a line start.
pub open spec fn cl_at(h: Seq<u8>, i: int) -> bool {
    0 <= i && i + 15 <= h.len() && line_start(h, i) && eq_fold(h.subrange(i, i + 15), cl_name())
}

/// The decimal value of `s`, blanks skipped: none on another byte or
/// without a digit; the second component says whether a digit was seen.
pub open spec fn decimal_field(s: Seq<u8>) -> Option<(int, bool)>
    decreases s.len(),
{
    if s.len() == 0 {
        Some((0, false))
    } else {
        match decimal_field(s.drop_last()) {
            None => None,
            Some((v, any)) => {
                let c = s.last();
                if 0x30 <= c <= 0x39 { Some((10 * v + (c - 0x30), true)) }
                else if is_blank(c) { Some((v, any)) }
                else { None }
            },
        }
    }
}

/// The number `decimal_field` found in `s` (0 when none).
pub open spec fn dec_value(s: Seq<u8>) -> int {
    match decimal_field(s) {
        Some((v, _)) => v,
        None => 0,
    }
}

/// The value of a `Content-Length` field whose value spans `s`.
pub open spec fn cl_value(s: Seq<u8>) -> Option<int> {
    match decimal_field(s) {
        Some((v, any)) => if any && v <= usize::MAX { Some(v) } else { None },
        None => None,
    }
}

/// The first `Content-Length` field from `i` on.
pub open spec fn first_cl(h: Seq<u8>, i: int) -> Option<int>
    decreases h.len() - i,
{
    if i < 0 || i + 15 > h.len() { None } else if cl_at(h, i) { Some(i) } else { first_cl(h, i + 1) }
}

proof fn lemma_decimal_grows(s: Seq<u8>, i: int)
    requires 0 <= i <= s.len(), decimal_field(s) is Some,
    ensures decimal_field(s.subrange(0, i)) is Some,
        dec_value(s.subrange(0, i)) <= dec_value(s),
        dec_value(s.subrange(0, i)) >= 0,
    decreases s.len(),
{
    assert(s.subrange(0, s.len() as int) =~= s);
    if i < s.len() {
        lemma_decimal_grows(s.drop_last(), i);
        assert(s.drop_last().subrange(0, i) =~= s.subrange(0, i));
    } else {
        lemma_decimal_nonneg(s);
    }
}

proof fn lemma_decimal_nonneg(s: Seq<u8>)
    ensures decimal_field(s) matches Some((v, _)) ==> v >= 0,
    decreases s.len(),
{
    if s.len() > 0 { lemma_decimal_nonneg(s.drop_last()); }
}

proof fn lemma_decimal_none_extends(s: Seq<u8>, i: int)
    requires 0 <= i <= s.len(), decimal_field(s.subrange(0, i)) is None,
    ensures decimal_field(s) is None,
    decreases s.len() - i,
{
    if i < s.len() {
        assert(s.subrange(0, i + 1).drop_last() =~= s.subrange(0, i));
        lemma_decimal_none_extends(s, i + 1);
    } else {
        assert(s.subrange(0, i) =~= s);
    }
}

/// The `Content-Length` of a header block: from the first such field (at a
/// line start, name in any case); none if absent or not a decimal.
pub fn content_length(headers: &[u8]) -> (r: Option<usize>)
    ensures r == match first_cl(headers@, 0) {
        Some(i) => match cl_value(headers@.subrange(i + 15, value_end(headers@, i + 15))) {
            Some(v) => Some(v as usize),
            None => None,
        },
        None => None,
    },
{
    let name: [u8; 15] = [0x63, 0x6F, 0x6E, 0x74, 0x65, 0x6E, 0x74, 0x2D, 0x6C, 0x65, 0x6E, 0x67, 0x74, 0x68, 0x3A];
    assert(name@ =~= cl_name());
    let n = headers.len();
    let mut i: usize = 0;
    while i <= n && n - i >= 15
        invariant i <= n + 1, n == headers@.len(), name@ == cl_name(),
            first_cl(headers@, 0) == first_cl(headers@, i as int),
        decreases n + 1 - i,
    {
        let at_line_start = i == 0 || (i >= 2 && headers[i - 2] == 0x0D && headers[i - 1] == 0x0A);
        if at_line_start && eq_ignore_case(vstd::slice::slice_subrange(headers, i, i + 15), name.as_slice()) {
            assert(cl_at(headers@, i as int));
            let vs = i + 15;
            let ve = match find_crlf(headers, vs) {
                Some(k) => k,
                None => n,
            };
            proof { lemma_crlf_from(headers@, vs as int); }
            let val = vstd::slice::slice_subrange(headers, vs, ve);
            let ghost s = val@;
            let mut value: usize = 0;
            let mut any = false;
            let mut k: usize = 0;
            while k < val.len()
                invariant k <= s.len(), s == val@,
                    decimal_field(s.subrange(0, k as int)) == Some((value as int, any)),
                    first_cl(headers@, 0) == Some(i as int), vs == i + 15,
                    ve as int == value_end(headers@, vs as int), s == headers@.subrange(vs as int, ve as int),
                decreases s.len() - k,
            {
                assert(s.subrange(0, k as int + 1).drop_last() =~= s.subrange(0, k as int));
                let b = val[k];
                if 0x30 <= b && b <= 0x39 {
                    let d = (b - 0x30) as usize;
                    if value > (usize::MAX - d) / 10 {
                        proof {
                            let t = s.subrange(0, k as int + 1);
                            if decimal_field(s) is Some {
                                lemma_decimal_grows(s, k as int + 1);
                            }
                        }
                        return None;
                    }
                    value = value * 10 + d;
                    any = true;
                } else if b == 0x20 || b == 0x09 {
                } else {
                    proof { lemma_decimal_none_extends(s, k as int + 1); }
                    return None;
                }
                k += 1;
            }
            assert(s.subrange(0, s.len() as int) =~= s);
            return if any { Some(value) } else { None };
        }
        i += 1;
    }
    None
}

// ---------------------------------------------------------------- hex numerals

/// The lowercase hex digit for `d < 16`.
pub open spec fn hex_char(d: nat) -> u8 {
    if d < 10 { (0x30 + d) as u8 } else { (0x61 + (d - 10)) as u8 }
}

/// The lowercase hex numeral of `n`, most significant digit first, with no
/// leading zeros ("0" for zero).
pub open spec fn hex_text(n: nat) -> Seq<u8>
    decreases n,
{
    if n < 16 { seq![hex_char(n)] } else { hex_text(n / 16).push(hex_char(n % 16)) }
}

proof fn lemma_hex_text_digits(n: nat)
    ensures
        hex_text(n).len() >= 1,
        forall|k: int| 0 <= k < hex_text(n).len() ==>
            (0x30 <= #[trigger] hex_text(n)[k] <= 0x39 || 0x61 <= hex_text(n)[k] <= 0x66),
    decreases n,
{
    if n >= 16 {
        lemma_hex_text_digits(n / 16);
    }
}

/// Chunk sizes are hexadecimal: the size field that spells `n` in hex digits
/// (each worth sixteen times the next) is read back as `n`.
pub proof fn law_hex_numeral(n: nat)
    ensures hex_number(hex_text(n)) == Some(n as int),
    decreases n,
{
    let d: nat = n % 16;
    lemma_hex_char_value(d);
    if n < 16 {
        assert(hex_text(n).drop_last() =~= Seq::<u8>::empty());
        assert(hex_text(n).last() == hex_char(d));
        assert(hex_number(Seq::<u8>::empty()) == Some(0int));
        assert(n == d);
    } else {
        law_hex_numeral(n / 16);
        assert(hex_text(n).drop_last() =~= hex_text(n / 16));
        assert(hex_text(n).last() == hex_char(d));
        assert(16 * (n / 16) + d == n);
    }
}

proof fn lemma_hex_char_value(d: nat)
    requires d < 16,
    ensures hex_digit_value(hex_char(d)) == Some(d as int),
{
    if d < 10 {
        assert(hex_char(d) as int == 0x30 + d);
    } else {
        assert(hex_char(d) as int == 0x61 + d - 10);
    }
}

proof fn lemma_crlf_at(b: Seq<u8>, from: int, l: int)
    requires
        0 <= from <= l,
        l + 1 < b.len(),
        b[l] == 0x0Du8,
        b[l + 1] == 0x0Au8,
        forall|k: int| from <= k < l ==> #[trigger] b[k] != 0x0Du8,
    ensures crlf_from(b, from) == Some(l),
    decreases l - from,
{
    if from < l {
        lemma_crlf_at(b, from + 1, l);
    }
}

proof fn lemma_no_semi(line: Seq<u8>, i: int)
    requires
        0 <= i <= line.len(),
        forall|k: int| i <= k < line.len() ==> #[trigger] line[k] != 0x3Bu8,
    ensures semi_index(line, i) == line.len(),
    decreases line.len() - i,
{
    if i < line.len() {
        lemma_no_semi(line, i + 1);
    }
}

/// A size field written as a hex numeral is read as its number.
proof fn lemma_size_field_hex(n: nat)
    requires n <= usize::MAX,
    ensures parse_hex_spec(size_field(hex_text(n))) == Some(n as int),
{
    let h = hex_text(n);
    lemma_hex_text_digits(n);
    lemma_no_semi(h, 0);
    assert(size_field(h) =~= h);
    assert(!is_blank(h[0]));
    assert(trim_start(h, 0) == 0);
    assert(!is_blank(h[h.len() - 1]));
    assert(trim_end(h, 0, h.len() as int) == h.len());
    assert(h.subrange(0, h.len() as int) =~= h);
    law_hex_numeral(n);
}

/// One chunk then the final chunk: the body made of a size line holding the
/// hex numeral of `data.len()`, the `data` bytes and CRLF, then "0" CRLF
/// CRLF, decodes to `data` whenever `data` fits the output.
pub proof fn law_single_chunk(data: Seq<u8>, cap: usize)
    requires data.len() <= cap,
    ensures
        decode_chunked_spec(
            hex_text(data.len()) + seq![0x0Du8, 0x0Au8] + data + seq![0x0Du8, 0x0Au8]
                + seq![0x30u8, 0x0Du8, 0x0Au8, 0x0Du8, 0x0Au8], cap as int) == Ok::<Seq<u8>, ChunkedError>(data),
{
    let n = data.len();
    let h = hex_text(n);
    let inp = h + seq![0x0Du8, 0x0Au8] + data + seq![0x0Du8, 0x0Au8] + seq![0x30u8, 0x0Du8, 0x0Au8, 0x0Du8, 0x0Au8];
    let l = h.len() as int;
    let j = l + 2;
    let i2 = j + n + 2;
    lemma_hex_text_digits(n);
    assert(inp.len() == i2 + 5);
    assert(inp[l] == 0x0Du8 && inp[l + 1] == 0x0Au8);
    assert forall|k: int| 0 <= k < l implies #[trigger] inp[k] != 0x0Du8 by {
        assert(inp[k] == h[k]);
    }
    lemma_crlf_at(inp, 0, l);
    assert(inp.subrange(0, l) =~= h);
    lemma_size_field_hex(n);
    if n > 0 {
        assert(inp.subrange(j, j + n) =~= data);
        assert(inp[j + n] == 0x0Du8 && inp[j + n + 1] == 0x0Au8);
        assert(inp[i2] == 0x30u8 && inp[i2 + 1] == 0x0Du8 && inp[i2 + 2] == 0x0Au8);
        lemma_crlf_at(inp, i2, i2 + 1);
        assert(inp.subrange(i2, i2 + 1) =~= hex_text(0));
        lemma_size_field_hex(0);
        let fuel = (inp.len() + 1) as nat;
        assert(dechunk(inp, i2, cap - n, (fuel - 1) as nat) == Ok::<Seq<u8>, ChunkedError>(Seq::empty()));
        assert(inp.subrange(j, j + n) + Seq::<u8>::empty() =~= data);
    } else {
        assert(data =~= Seq::<u8>::empty());
    }
}

} // verus!
