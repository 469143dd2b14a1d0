//! Minimal HTTP/1.1 request parsing and response serialization for the
//! object service.

use vstd::prelude::*;
use vstd::string::StringSliceAdditionalSpecFns;

use crate::bootfs::filter_caps;
use crate::bytes::{
    append_bytes, dec_digits, eq_ignore_ascii_case, find_byte, lemma_split_at, lemma_split_len,
    lines_of, spec_dec_render, spec_eq_ignore_case, spec_lines, spec_split, spec_trim, split_on,
    subvec, trim_ascii, utf8_check, utf8_to_str,
};

verus! {

/// Request methods the service understands.
#[derive(Debug, Clone, Copy, PartialEq, Eq, Structural)]
pub enum Method {
    Get,
    Put,
    Post,
    Delete,
    Head,
    Unknown,
}

/// One request or response header.
#[derive(Clone)]
pub struct Header {
    pub name: String,
    pub value: String,
}

/// A parsed request.
pub struct Request {
    pub method: Method,
    pub path: String,
    pub headers: Vec<Header>,
    pub body: Vec<u8>,
}

/// A response before serialization.
pub struct Response {
    pub status: u16,
    pub headers: Vec<Header>,
    pub body: Vec<u8>,
}

/// Request handler interface.
pub trait HttpHandler {
    fn handle(&mut self, request: &Request) -> Response;
}

/// The value of the first header whose name matches `name` up to ASCII
/// case, if any, searching from position `i`.
pub open spec fn spec_header_value(headers: Seq<(Seq<u8>, Seq<char>)>, name: Seq<u8>, i: int) -> Option<
    Seq<char>,
>
    decreases headers.len() - i,
{
    if i < 0 || i >= headers.len() {
        None
    } else if spec_eq_ignore_case(headers[i].0, name) {
        Some(headers[i].1)
    } else {
        spec_header_value(headers, name, i + 1)
    }
}

impl Request {
    /// The request's headers as name bytes and value characters.
    pub open spec fn spec_headers(&self) -> Seq<(Seq<u8>, Seq<char>)> {
        Seq::new(
            self.headers@.len(),
            |i: int|
                (vstd::utf8::encode_utf8(self.headers@[i].name@), self.headers@[i].value@),
        )
    }

    /// Looks up a header's value by name, ignoring ASCII case; the first
    /// match wins.
    pub fn header(&self, name: &str) -> (r: Option<&str>)
        ensures
            match r {
                Some(v) => spec_header_value(self.spec_headers(), name.spec_bytes(), 0) == Some(
                    v@,
                ),
                None => spec_header_value(self.spec_headers(), name.spec_bytes(), 0) is None,
            },
    {
        let mut i: usize = 0;
        while i < self.headers.len()
            invariant
                i <= self.headers@.len(),
                spec_header_value(self.spec_headers(), name.spec_bytes(), 0) == spec_header_value(
                    self.spec_headers(),
                    name.spec_bytes(),
                    i as int,
                ),
            decreases self.headers@.len() - i,
        {
            if eq_ignore_ascii_case(self.headers[i].name.as_str().as_bytes(), name.as_bytes()) {
                return Some(self.headers[i].value.as_str());
            }
            i += 1;
        }
        None
    }
}

/// The method a request-line token names.
pub open spec fn spec_method(token: Seq<u8>) -> Method {
    if token == seq![0x47u8, 0x45u8, 0x54u8] {
        Method::Get
    } else if token == seq![0x50u8, 0x55u8, 0x54u8] {
        Method::Put
    } else if token == seq![0x50u8, 0x4fu8, 0x53u8, 0x54u8] {
        Method::Post
    } else if token == seq![0x44u8, 0x45u8, 0x4cu8, 0x45u8, 0x54u8, 0x45u8] {
        Method::Delete
    } else if token == seq![0x48u8, 0x45u8, 0x41u8, 0x44u8] {
        Method::Head
    } else {
        Method::Unknown
    }
}

fn method_of(token: &[u8]) -> (r: Method)
    ensures
        r == spec_method(token@),
{
    if crate::bytes::bytes_eq(token, &[0x47, 0x45, 0x54]) {
        proof {
            assert(token@ =~= seq![0x47u8, 0x45u8, 0x54u8]);
        }
        Method::Get
    } else if crate::bytes::bytes_eq(token, &[0x50, 0x55, 0x54]) {
        proof {
            assert(token@ =~= seq![0x50u8, 0x55u8, 0x54u8]);
            assert(token@ != seq![0x47u8, 0x45u8, 0x54u8]);
        }
        Method::Put
    } else if crate::bytes::bytes_eq(token, &[0x50, 0x4f, 0x53, 0x54]) {
        proof {
            assert(token@ =~= seq![0x50u8, 0x4fu8, 0x53u8, 0x54u8]);
        }
        Method::Post
    } else if crate::bytes::bytes_eq(token, &[0x44, 0x45, 0x4c, 0x45, 0x54, 0x45]) {
        proof {
            assert(token@ =~= seq![0x44u8, 0x45u8, 0x4cu8, 0x45u8, 0x54u8, 0x45u8]);
        }
        Method::Delete
    } else if crate::bytes::bytes_eq(token, &[0x48, 0x45, 0x41, 0x44]) {
        proof {
            assert(token@ =~= seq![0x48u8, 0x45u8, 0x41u8, 0x44u8]);
        }
        Method::Head
    } else {
        proof {
            assert(token@ != seq![0x47u8, 0x45u8, 0x54u8]);
            assert(token@ != seq![0x50u8, 0x55u8, 0x54u8]);
            assert(token@ != seq![0x50u8, 0x4fu8, 0x53u8, 0x54u8]);
            assert(token@ != seq![0x44u8, 0x45u8, 0x4cu8, 0x45u8, 0x54u8, 0x45u8]);
            assert(token@ != seq![0x48u8, 0x45u8, 0x41u8, 0x44u8]);
        }
        Method::Unknown
    }
}

/// The whitespace-separated tokens of a request line.
pub open spec fn spec_tokens(line: Seq<u8>) -> Seq<Seq<u8>> {
    filter_caps(spec_split(line, 0x20))
}

/// The index of the first blank line at or after `i`, or the line count
/// when none is blank.
pub open spec fn spec_header_end(lines: Seq<Seq<u8>>, i: int) -> int
    decreases lines.len() - i,
{
    if i < 0 || i >= lines.len() {
        lines.len() as int
    } else if lines[i].len() == 0 {
        i
    } else {
        spec_header_end(lines, i + 1)
    }
}

/// The header a line carries: the trimmed name before the first colon and
/// the trimmed value after it; a line without a colon carries none.
pub open spec fn spec_header_of_line(line: Seq<u8>) -> Option<(Seq<u8>, Seq<u8>)> {
    let fields = spec_split(line, 0x3A);
    if fields.len() < 2 {
        None
    } else {
        Some((spec_trim(fields[0]), spec_trim(line.skip(fields[0].len() as int + 1))))
    }
}

/// The headers carried by lines `i` up to `end`, in order.
pub open spec fn spec_headers_of(lines: Seq<Seq<u8>>, i: int, end: int) -> Seq<(Seq<u8>, Seq<u8>)>
    decreases end - i,
{
    if i < 0 || i >= end || i >= lines.len() {
        Seq::empty()
    } else {
        (match spec_header_of_line(lines[i]) {
            Some(h) => seq![h],
            None => Seq::empty(),
        }) + spec_headers_of(lines, i + 1, end)
    }
}

/// Lines folded into a body: each line is appended, preceded by a
/// carriage-return line-feed pair unless the accumulator is still empty.
pub open spec fn spec_body_fold(acc: Seq<u8>, lines: Seq<Seq<u8>>, i: int) -> Seq<u8>
    decreases lines.len() - i,
{
    if i < 0 || i >= lines.len() {
        acc
    } else {
        spec_body_fold(
            if acc.len() == 0 {
                lines[i]
            } else {
                acc + seq![0x0Du8, 0x0Au8] + lines[i]
            },
            lines,
            i + 1,
        )
    }
}

/// A stored header name or value: the trimmed bytes decoded, or empty when
/// they are not UTF-8 on their own.
pub open spec fn spec_header_text(bytes: Seq<u8>) -> Seq<u8> {
    if vstd::utf8::valid_utf8(bytes) {
        bytes
    } else {
        Seq::empty()
    }
}

/// Parses a request: the first line gives the method and path, each
/// following line up to an empty one a `name: value` header, and the rest
/// is the body. `None` when the bytes are not UTF-8 or the request line
/// has fewer than two tokens.
pub fn parse_request(raw: &[u8]) -> (r: Option<Request>)
    ensures
        match r {
            Some(req) => {
                &&& vstd::utf8::valid_utf8(raw@)
                &&& spec_lines(raw@).len() > 0
                &&& spec_tokens(spec_lines(raw@)[0]).len() >= 2
                &&& req.method == spec_method(spec_tokens(spec_lines(raw@)[0])[0])
                &&& vstd::utf8::encode_utf8(req.path@) == spec_tokens(spec_lines(raw@)[0])[1]
                &&& ({
                    let lines = spec_lines(raw@);
                    let hdr_end = spec_header_end(lines, 1);
                    let shdrs = spec_headers_of(lines, 1, hdr_end);
                    &&& req.headers@.len() == shdrs.len()
                    &&& forall|k: int|
                        0 <= k < shdrs.len() ==> vstd::utf8::encode_utf8(
                            (#[trigger] req.headers@[k]).name@,
                        ) == spec_header_text(shdrs[k].0) && vstd::utf8::encode_utf8(
                            req.headers@[k].value@,
                        ) == spec_header_text(shdrs[k].1)
                    &&& req.body@ == spec_body_fold(
                        Seq::empty(),
                        lines,
                        if hdr_end < lines.len() {
                            hdr_end + 1
                        } else {
                            hdr_end
                        },
                    )
                })
            },
            None => !vstd::utf8::valid_utf8(raw@) || spec_lines(raw@).len() == 0 || spec_tokens(
                spec_lines(raw@)[0],
            ).len() < 2 || !vstd::utf8::valid_utf8(spec_tokens(spec_lines(raw@)[0])[1]),
        },
{
    if !utf8_check(raw) {
        return None;
    }
    let lines = lines_of(raw);
    if lines.len() == 0 {
        return None;
    }
    let request_line = &lines[0];
    let tokens = tokens_of(request_line.as_slice());
    if tokens.len() < 2 {
        return None;
    }
    let method = method_of(tokens[0].as_slice());
    let path_bytes = &tokens[1];
    let path = match utf8_to_str(path_bytes.as_slice()) {
        Some(s) => s.to_owned(),
        None => {
            return None;
        },
    };
    proof {
        assert(vstd::utf8::encode_utf8(path@) == spec_tokens(spec_lines(raw@)[0])[1]);
    }

    // headers: lines after the first, up to the first empty line
    let ghost slines = spec_lines(raw@);
    let mut headers: Vec<Header> = Vec::new();
    let mut li: usize = 1;
    while li < lines.len() && lines[li].len() > 0
        invariant
            1 <= li <= lines@.len(),
            slines == spec_lines(raw@),
            lines@.len() == slines.len(),
            forall|j: int| 0 <= j < slines.len() ==> (#[trigger] lines@[j])@ == slines[j],
            spec_header_end(slines, 1) == spec_header_end(slines, li as int),
            headers@.len() == spec_headers_of(slines, 1, li as int).len(),
            forall|k: int|
                0 <= k < headers@.len() ==> vstd::utf8::encode_utf8(
                    (#[trigger] headers@[k]).name@,
                ) == spec_header_text(spec_headers_of(slines, 1, li as int)[k].0)
                    && vstd::utf8::encode_utf8(headers@[k].value@) == spec_header_text(
                    spec_headers_of(slines, 1, li as int)[k].1,
                ),
        decreases lines@.len() - li,
    {
        let line = &lines[li];
        let ghost sline = slines[li as int];
        match find_byte(line.as_slice(), 0, 0x3A) {
            Some(colon) => {
                proof {
                    lemma_split_at(sline, 0x3A, colon as int);
                    assert(spec_split(sline, 0x3A)[0] == sline.take(colon as int));
                    lemma_split_len(sline.skip(colon + 1), 0x3A);
                    assert(spec_split(sline, 0x3A).len() >= 2);
                }
                let name_bytes = trim_ascii(subvec(line.as_slice(), 0, colon).as_slice());
                let value_bytes = trim_ascii(
                    subvec(line.as_slice(), colon + 1, line.len()).as_slice(),
                );
                proof {
                    assert(sline.take(colon as int) =~= sline.subrange(0, colon as int));
                    assert(sline.skip(colon + 1) =~= sline.subrange(
                        colon + 1,
                        sline.len() as int,
                    ));
                    assert(spec_header_of_line(sline) == Some(
                        (name_bytes@, value_bytes@),
                    ));
                }
                let name = match utf8_to_str(name_bytes.as_slice()) {
                    Some(s) => s.to_owned(),
                    None => String::new(),
                };
                let value = match utf8_to_str(value_bytes.as_slice()) {
                    Some(s) => s.to_owned(),
                    None => String::new(),
                };
                proof {
                    if !vstd::utf8::valid_utf8(name_bytes@) {
                        assert(vstd::utf8::encode_utf8(Seq::<char>::empty()) =~= Seq::<u8>::empty());
                    }
                    if !vstd::utf8::valid_utf8(value_bytes@) {
                        assert(vstd::utf8::encode_utf8(Seq::<char>::empty()) =~= Seq::<u8>::empty());
                    }
                }
                headers.push(Header { name, value });
                proof {
                    lemma_headers_snoc(slines, 1, li as int);
                }
            },
            None => {
                proof {
                    lemma_split_at(sline, 0x3A, sline.len() as int);
                    assert(spec_split(sline, 0x3A) =~= seq![sline]);
                    assert(spec_header_of_line(sline) is None);
                    lemma_headers_snoc(slines, 1, li as int);
                }
            },
        }
        li += 1;
    }
    proof {
        assert(li == spec_header_end(slines, 1));
    }

    // body: remaining lines joined with CRLF
    let mut body: Vec<u8> = Vec::new();
    let mut bi = if li < lines.len() {
        li + 1
    } else {
        li
    };
    let ghost bstart = bi as int;
    while bi < lines.len()
        invariant
            bstart <= bi <= lines@.len(),
            slines == spec_lines(raw@),
            lines@.len() == slines.len(),
            forall|j: int| 0 <= j < slines.len() ==> (#[trigger] lines@[j])@ == slines[j],
            spec_body_fold(Seq::empty(), slines, bstart) == spec_body_fold(
                body@,
                slines,
                bi as int,
            ),
        decreases lines@.len() - bi,
    {
        let ghost prior = body@;
        if body.len() > 0 {
            body.push(0x0D);
            body.push(0x0A);
        }
        append_bytes(&mut body, lines[bi].as_slice());
        proof {
            if prior.len() == 0 {
                assert(body@ =~= slines[bi as int]);
            } else {
                assert(body@ =~= prior + seq![0x0Du8, 0x0Au8] + slines[bi as int]);
            }
        }
        bi += 1;
    }

    Some(Request { method, path, headers, body })
}

/// Extracts the whitespace-separated tokens of a line.
fn tokens_of(line: &[u8]) -> (r: Vec<Vec<u8>>)
    ensures
        r@.len() == spec_tokens(line@).len(),
        forall|i: int| 0 <= i < r@.len() ==> (#[trigger] r@[i])@ == spec_tokens(line@)[i],
{
    let fields = split_on(line, 0x20);
    let mut out: Vec<Vec<u8>> = Vec::new();
    let ghost sfields = spec_split(line@, 0x20);
    let mut i: usize = 0;
    proof {
        assert(sfields.skip(0) =~= sfields);
    }
    while i < fields.len()
        invariant
            i <= fields@.len(),
            fields@.len() == sfields.len(),
            forall|j: int| 0 <= j < fields@.len() ==> (#[trigger] fields@[j])@ == sfields[j],
            filter_caps(sfields) =~= out@.map_values(|v: Vec<u8>| v@) + filter_caps(
                sfields.skip(i as int),
            ),
            forall|j: int|
                0 <= j < out@.len() ==> (#[trigger] out@[j])@ == filter_caps(sfields)[j],
        decreases fields@.len() - i,
    {
        let ghost pre = out@;
        let t = trim_ascii(fields[i].as_slice());
        proof {
            assert(sfields.skip(i as int).first() == sfields[i as int]);
            assert(sfields.skip(i as int).drop_first() =~= sfields.skip(i + 1));
        }
        if t.len() > 0 {
            out.push(t);
            proof {
                assert(out@.map_values(|v: Vec<u8>| v@) =~= pre.map_values(|v: Vec<u8>| v@).push(
                    t@,
                ));
                assert(filter_caps(sfields)[pre.len() as int] == t@);
            }
        }
        i += 1;
    }
    proof {
        assert(sfields.skip(sfields.len() as int) =~= Seq::<Seq<u8>>::empty());
        assert(filter_caps(Seq::<Seq<u8>>::empty()) =~= Seq::<Seq<u8>>::empty());
    }
    out
}

proof fn lemma_headers_snoc(lines: Seq<Seq<u8>>, i: int, end: int)
    requires
        0 <= i <= end < lines.len(),
    ensures
        spec_headers_of(lines, i, end + 1) == spec_headers_of(lines, i, end) + (
        match spec_header_of_line(lines[end]) {
            Some(h) => seq![h],
            None => Seq::<(Seq<u8>, Seq<u8>)>::empty(),
        }),
    decreases end - i,
{
    if i == end {
        assert(spec_headers_of(lines, i, i) =~= Seq::<(Seq<u8>, Seq<u8>)>::empty());
        assert(spec_headers_of(lines, i + 1, i + 1) =~= Seq::<(Seq<u8>, Seq<u8>)>::empty());
        assert(spec_headers_of(lines, i, i + 1) =~= spec_headers_of(lines, i, i) + (
        match spec_header_of_line(lines[i]) {
            Some(h) => seq![h],
            None => Seq::<(Seq<u8>, Seq<u8>)>::empty(),
        }));
    } else {
        lemma_headers_snoc(lines, i + 1, end);
        assert(spec_headers_of(lines, i, end + 1) =~= spec_headers_of(lines, i, end) + (
        match spec_header_of_line(lines[end]) {
            Some(h) => seq![h],
            None => Seq::<(Seq<u8>, Seq<u8>)>::empty(),
        }));
    }
}

/// The serialized status line for a status code.
pub open spec fn spec_status_line(status: u16) -> Seq<u8> {
    let intro = seq![0x48u8, 0x54u8, 0x54u8, 0x50u8, 0x2fu8, 0x31u8, 0x2eu8, 0x31u8, 0x20u8];
    let text = if status == 200 {
        spec_dec_render(200) + seq![0x20u8, 0x4fu8, 0x4bu8]
    } else if status == 403 {
        spec_dec_render(403) + seq![
            0x20u8, 0x46u8, 0x6fu8, 0x72u8, 0x62u8, 0x69u8, 0x64u8, 0x64u8, 0x65u8, 0x6eu8,
        ]
    } else if status == 404 {
        spec_dec_render(404) + seq![
            0x20u8, 0x4eu8, 0x6fu8, 0x74u8, 0x20u8, 0x46u8, 0x6fu8, 0x75u8, 0x6eu8, 0x64u8,
        ]
    } else if status == 500 {
        spec_dec_render(500) + seq![
            0x20u8, 0x49u8, 0x6eu8, 0x74u8, 0x65u8, 0x72u8, 0x6eu8, 0x61u8, 0x6cu8, 0x20u8, 0x53u8,
            0x65u8, 0x72u8, 0x76u8, 0x65u8, 0x72u8, 0x20u8, 0x45u8, 0x72u8, 0x72u8, 0x6fu8, 0x72u8,
        ]
    } else {
        spec_dec_render(status as int)
    };
    intro + text + seq![0x0Du8, 0x0Au8]
}

/// The serialized headers: each `name: value` line.
pub open spec fn spec_headers_bytes(headers: Seq<(Seq<u8>, Seq<u8>)>) -> Seq<u8>
    decreases headers.len(),
{
    if headers.len() == 0 {
        Seq::empty()
    } else {
        headers.first().0 + seq![0x3Au8, 0x20u8] + headers.first().1 + seq![0x0Du8, 0x0Au8]
            + spec_headers_bytes(headers.drop_first())
    }
}

impl Response {
    /// The response's headers as bytes.
    pub open spec fn spec_headers(&self) -> Seq<(Seq<u8>, Seq<u8>)> {
        Seq::new(
            self.headers@.len(),
            |i: int|
                (
                    vstd::utf8::encode_utf8(self.headers@[i].name@),
                    vstd::utf8::encode_utf8(self.headers@[i].value@),
                ),
        )
    }
}

/// Serializes a response: the status line, the headers, a blank line, and
/// the body.
pub fn build_response(response: &Response) -> (r: Vec<u8>)
    ensures
        r@ == spec_status_line(response.status) + spec_headers_bytes(response.spec_headers())
            + seq![0x0Du8, 0x0Au8] + response.body@,
{
    let mut buffer: Vec<u8> = Vec::new();
    append_bytes(&mut buffer, &[0x48, 0x54, 0x54, 0x50, 0x2f, 0x31, 0x2e, 0x31, 0x20]);
    let digits = dec_digits(response.status as u64);
    append_bytes(&mut buffer, digits.as_slice());
    if response.status == 200 {
        append_bytes(&mut buffer, &[0x20, 0x4f, 0x4b]);
    } else if response.status == 403 {
        append_bytes(&mut buffer, &[0x20, 0x46, 0x6f, 0x72, 0x62, 0x69, 0x64, 0x64, 0x65, 0x6e]);
    } else if response.status == 404 {
        append_bytes(&mut buffer, &[0x20, 0x4e, 0x6f, 0x74, 0x20, 0x46, 0x6f, 0x75, 0x6e, 0x64]);
    } else if response.status == 500 {
        append_bytes(
            &mut buffer,
            &[
                0x20,
                0x49,
                0x6e,
                0x74,
                0x65,
                0x72,
                0x6e,
                0x61,
                0x6c,
                0x20,
                0x53,
                0x65,
                0x72,
                0x76,
                0x65,
                0x72,
                0x20,
                0x45,
                0x72,
                0x72,
                0x6f,
                0x72,
            ],
        );
    }
    append_bytes(&mut buffer, &[0x0D, 0x0A]);
    proof {
        assert(buffer@ =~= spec_status_line(response.status));
    }
    let ghost hdrs = response.spec_headers();
    let ghost status_part = buffer@;
    let mut i: usize = 0;
    proof {
        assert(hdrs.skip(0) =~= hdrs);
    }
    while i < response.headers.len()
        invariant
            i <= response.headers@.len(),
            hdrs == response.spec_headers(),
            status_part + spec_headers_bytes(hdrs) =~= buffer@ + spec_headers_bytes(
                hdrs.skip(i as int),
            ),
        decreases response.headers@.len() - i,
    {
        let h = &response.headers[i];
        append_bytes(&mut buffer, h.name.as_str().as_bytes());
        append_bytes(&mut buffer, &[0x3A, 0x20]);
        append_bytes(&mut buffer, h.value.as_str().as_bytes());
        append_bytes(&mut buffer, &[0x0D, 0x0A]);
        proof {
            assert(hdrs.skip(i as int).first() == hdrs[i as int]);
            assert(hdrs.skip(i as int).drop_first() =~= hdrs.skip(i + 1));
            assert(status_part + spec_headers_bytes(hdrs) =~= buffer@ + spec_headers_bytes(
                hdrs.skip(i + 1),
            ));
        }
        i += 1;
    }
    proof {
        assert(hdrs.skip(hdrs.len() as int) =~= Seq::<(Seq<u8>, Seq<u8>)>::empty());
        assert(buffer@ =~= status_part + spec_headers_bytes(hdrs));
    }
    append_bytes(&mut buffer, &[0x0D, 0x0A]);
    append_bytes(&mut buffer, response.body.as_slice());
    buffer
}

} // verus!
