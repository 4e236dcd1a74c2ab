//! The Lambda protocol: an HTTP request as a JSON-ready event, the guest's
//! response back as an HTTP response, and the state the guest's host calls
//! share.
use vstd::prelude::*;
use vstd::string::StringSliceAdditionalSpecFns;
use vstd::utf8::{decode_utf8, encode_utf8, valid_utf8};
use crate::bytes::byte_pairs;
use crate::headers::{header_name, is_header_value, normalized_header_name, valid_header_name, valid_header_value};
use crate::codec::{base64_decode, base64_decoded, base64_encode, base64_of, decode_query, query_pairs, utf8_text};

verus! {

broadcast use vstd::utf8::encode_utf8_decode_utf8;

/// The views of a list of string pairs.
pub open spec fn str_pairs(v: Seq<(String, String)>) -> Seq<(Seq<char>, Seq<char>)> {
    v.map_values(|p: (String, String)| (p.0@, p.1@))
}

/// The views of a list of names with their values.
pub open spec fn str_groups(v: Seq<(String, Vec<String>)>) -> Seq<(Seq<char>, Seq<Seq<char>>)> {
    v.map_values(|p: (String, Vec<String>)| (p.0@, p.1@.map_values(|s: String| s@)))
}

/// Where `key` stands in `gs` at or after `from`.
pub open spec fn index_of_key(gs: Seq<(Seq<char>, Seq<Seq<char>>)>, key: Seq<char>, from: int) -> Option<int>
    decreases gs.len() - from,
{
    if from < 0 || from >= gs.len() {
        None
    } else if gs[from].0 == key {
        Some(from)
    } else {
        index_of_key(gs, key, from + 1)
    }
}

/// Header values grouped by name: names in order of first appearance, each
/// with all its values in order.
pub open spec fn group_values(hs: Seq<(Seq<char>, Seq<char>)>) -> Seq<(Seq<char>, Seq<Seq<char>>)>
    decreases hs.len(),
{
    if hs.len() == 0 {
        Seq::empty()
    } else {
        let gs = group_values(hs.drop_last());
        let (k, v) = hs.last();
        match index_of_key(gs, k, 0) {
            Some(i) => gs.update(i, (k, gs[i].1.push(v))),
            None => gs.push((k, seq![v])),
        }
    }
}

/// Query parameters: each key once, in order of first appearance, with the
/// value of its first occurrence.
pub open spec fn first_values(ps: Seq<(Seq<char>, Seq<char>)>) -> Seq<(Seq<char>, Seq<Seq<char>>)>
    decreases ps.len(),
{
    if ps.len() == 0 {
        Seq::empty()
    } else {
        let gs = first_values(ps.drop_last());
        let (k, v) = ps.last();
        match index_of_key(gs, k, 0) {
            Some(_) => gs,
            None => gs.push((k, seq![v])),
        }
    }
}

/// How a request body travels in the event: its text when it is valid
/// UTF-8, else its base64 text, with the flag that says which.
pub open spec fn encoded_body(x: Seq<u8>) -> (Seq<char>, bool) {
    if valid_utf8(x) {
        (decode_utf8(x), false)
    } else {
        (base64_of(x), true)
    }
}

/// An HTTP request as a Lambda event.
#[derive(Debug)]
pub struct LambdaRequest {
    pub resource: String,
    pub path: String,
    pub http_method: String,
    pub headers: Vec<(String, Vec<String>)>,
    pub query_string_parameters: Vec<(String, Vec<String>)>,
    pub path_parameters: Option<String>,
    pub stage_variables: Option<String>,
    pub body: Option<String>,
    pub is_base64_encoded: bool,
}

/// Why a request cannot become an event, or a guest's response an HTTP
/// response.
#[derive(Debug, Clone, Copy, PartialEq, Eq, Structural)]
pub enum LambdaError {
    /// The URL query string could not be decoded.
    InvalidQuery,
    /// The guest returned without sending a response.
    NoResponse,
    /// The response's status code is outside 100 to 999.
    InvalidStatus,
    /// A response header name is not a valid HTTP header name.
    InvalidHeaderName,
    /// A response header value holds a byte an HTTP header value may not hold.
    InvalidHeaderValue,
    /// A body flagged as base64 is not valid base64.
    InvalidBody,
}

fn clone_strings(v: &Vec<String>) -> (r: Vec<String>)
    ensures
        r@.map_values(|s: String| s@) == v@.map_values(|s: String| s@),
{
    let mut r: Vec<String> = Vec::new();
    let mut i: usize = 0;
    while i < v.len()
        invariant
            0 <= i <= v@.len(),
            r@.map_values(|s: String| s@) == v@.subrange(0, i as int).map_values(|s: String| s@),
        decreases v@.len() - i,
    {
        let c = v[i].clone();
        assert(c@ == v@[i as int]@);
        let ghost old_r = r@;
        r.push(c);
        i = i + 1;
        assert(v@.subrange(0, i as int) =~= v@.subrange(0, i - 1).push(v@[i - 1]));
        assert(r@.map_values(|s: String| s@) =~= old_r.map_values(|s: String| s@).push(c@));
        assert(v@.subrange(0, i as int).map_values(|s: String| s@) =~= v@.subrange(0, i - 1).map_values(|s: String| s@).push(c@));
    }
    assert(v@.subrange(0, v@.len() as int) =~= v@);
    r
}

fn find_key(gs: &Vec<(String, Vec<String>)>, key: &String) -> (r: Option<usize>)
    ensures
        r matches Some(i) ==> index_of_key(str_groups(gs@), key@, 0) == Some(i as int) && i < gs@.len(),
        r is None ==> index_of_key(str_groups(gs@), key@, 0) is None,
{
    let ghost sg = str_groups(gs@);
    let mut i: usize = 0;
    while i < gs.len()
        invariant
            sg == str_groups(gs@),
            index_of_key(sg, key@, 0) == index_of_key(sg, key@, i as int),
        decreases gs@.len() - i,
    {
        if gs[i].0 == *key {
            return Some(i);
        }
        i = i + 1;
    }
    None
}

/// Groups header values by name, names in order of first appearance.
pub fn group_headers(headers: &Vec<(String, String)>) -> (r: Vec<(String, Vec<String>)>)
    ensures
        str_groups(r@) == group_values(str_pairs(headers@)),
{
    let ghost hs = str_pairs(headers@);
    let mut gs: Vec<(String, Vec<String>)> = Vec::new();
    let mut i: usize = 0;
    assert(str_groups(gs@) =~= group_values(hs.subrange(0, 0)));
    while i < headers.len()
        invariant
            0 <= i <= headers@.len(),
            hs == str_pairs(headers@),
            str_groups(gs@) == group_values(hs.subrange(0, i as int)),
        decreases headers@.len() - i,
    {
        let key = headers[i].0.clone();
        let value = headers[i].1.clone();
        assert(hs.subrange(0, i + 1).drop_last() =~= hs.subrange(0, i as int));
        match find_key(&gs, &key) {
            Some(j) => {
                let mut values = clone_strings(&gs[j].1);
                values.push(value);
                let ghost old_gs = gs@;
                gs[j] = (key, values);
                assert(str_groups(gs@) =~~= str_groups(old_gs).update(
                    j as int,
                    (key@, str_groups(old_gs)[j as int].1.push(value@)),
                ));
            },
            None => {
                let mut values: Vec<String> = Vec::new();
                values.push(value);
                let ghost old_gs = gs@;
                gs.push((key, values));
                assert(str_groups(gs@) =~~= str_groups(old_gs).push((key@, seq![value@])));
            },
        }
        i = i + 1;
    }
    assert(hs.subrange(0, headers@.len() as int) =~= hs);
    gs
}

/// Keeps the first value of each query key, keys in order of first
/// appearance.
pub fn first_query_values(pairs: Vec<(String, String)>) -> (r: Vec<(String, Vec<String>)>)
    ensures
        str_groups(r@) == first_values(str_pairs(pairs@)),
{
    let ghost ps = str_pairs(pairs@);
    let mut gs: Vec<(String, Vec<String>)> = Vec::new();
    let mut i: usize = 0;
    assert(str_groups(gs@) =~= first_values(ps.subrange(0, 0)));
    while i < pairs.len()
        invariant
            0 <= i <= pairs@.len(),
            ps == str_pairs(pairs@),
            str_groups(gs@) == first_values(ps.subrange(0, i as int)),
        decreases pairs@.len() - i,
    {
        let key = pairs[i].0.clone();
        let value = pairs[i].1.clone();
        assert(ps.subrange(0, i + 1).drop_last() =~= ps.subrange(0, i as int));
        if find_key(&gs, &key).is_none() {
            let mut values: Vec<String> = Vec::new();
            values.push(value);
            let ghost old_gs = gs@;
            gs.push((key, values));
            assert(str_groups(gs@) =~~= str_groups(old_gs).push((key@, seq![value@])));
        }
        i = i + 1;
    }
    assert(ps.subrange(0, pairs@.len() as int) =~= ps);
    gs
}

/// The body as the event carries it: its text when it is valid UTF-8,
/// else its base64 text; the flag tells which.
pub fn encode_body(body: &[u8]) -> (r: (String, bool))
    ensures
        (r.0@, r.1) == encoded_body(body@),
{
    match utf8_text(body) {
        Some(s) => {
            let text = s.to_owned();
            assert(text@ == decode_utf8(body@));
            (text, false)
        },
        None => (base64_encode(body), true),
    }
}

impl LambdaRequest {
    /// The event for a request: `resource` and `path` are the request path;
    /// headers are grouped by name; each query key keeps the value of its
    /// first occurrence; the body travels as text or as base64. Fails only
    /// when the query string cannot be decoded.
    pub fn from(
        method: &str,
        path: &str,
        query: Option<&str>,
        headers: &Vec<(String, String)>,
        body: &[u8],
    ) -> (r: Result<LambdaRequest, LambdaError>)
        ensures
            r is Err <==> (query matches Some(q) && query_pairs(q@) is None),
            r matches Err(e) ==> e == LambdaError::InvalidQuery,
            r matches Ok(req) ==> {
                &&& req.resource@ == path@
                &&& req.path@ == path@
                &&& req.http_method@ == method@
                &&& str_groups(req.headers@) == group_values(str_pairs(headers@))
                &&& str_groups(req.query_string_parameters@) == match query {
                    Some(q) => first_values(query_pairs(q@)->0),
                    None => Seq::empty(),
                }
                &&& req.path_parameters is None
                &&& req.stage_variables is None
                &&& req.body matches Some(b) && (b@, req.is_base64_encoded) == encoded_body(body@)
            },
    {
        let query_string_parameters = match query {
            Some(q) => match decode_query(q) {
                Some(pairs) => first_query_values(pairs),
                None => {
                    return Err(LambdaError::InvalidQuery);
                },
            },
            None => {
                let v: Vec<(String, Vec<String>)> = Vec::new();
                assert(str_groups(v@) =~= Seq::<(Seq<char>, Seq<Seq<char>>)>::empty());
                v
            },
        };
        let (text, is_base64_encoded) = encode_body(body);
        Ok(LambdaRequest {
            resource: path.to_owned(),
            path: path.to_owned(),
            http_method: method.to_owned(),
            headers: group_headers(headers),
            query_string_parameters,
            path_parameters: None,
            stage_variables: None,
            body: Some(text),
            is_base64_encoded,
        })
    }
}

/// Writing `x` as the request body, the event carries `x`'s own bytes as
/// text when `x` is valid UTF-8, and otherwise flags the body as base64 and
/// carries the base64 text of `x`.
pub proof fn lemma_body_encoding(x: Seq<u8>)
    ensures
        !encoded_body(x).1 ==> encode_utf8(encoded_body(x).0) == x,
        encoded_body(x).1 ==> encoded_body(x).0 == base64_of(x) && !valid_utf8(x),
{
    if valid_utf8(x) {
        vstd::utf8::decode_utf8_encode_utf8(x);
    }
}

/// A guest's response, as it sends it.
#[derive(Debug)]
pub struct LambdaResponse {
    pub status_code: u16,
    pub headers: Vec<(String, Vec<String>)>,
    pub body: Option<String>,
    pub is_base64_encoded: bool,
}

/// An HTTP response: status, header fields in order, body.
#[derive(Debug)]
pub struct HttpResponse {
    pub status: u16,
    pub headers: Vec<(Vec<u8>, Vec<u8>)>,
    pub body: Vec<u8>,
}

pub type FieldsResult = Result<Seq<(Seq<u8>, Seq<u8>)>, LambdaError>;

/// The header fields for one name and its values, one field per value.
pub open spec fn entry_fields(name: Seq<char>, vals: Seq<Seq<char>>) -> FieldsResult
    decreases vals.len(),
{
    if vals.len() == 0 {
        Ok(Seq::empty())
    } else {
        match entry_fields(name, vals.drop_last()) {
            Err(e) => Err(e),
            Ok(fs) => if !valid_header_name(encode_utf8(name)) {
                Err(LambdaError::InvalidHeaderName)
            } else if !valid_header_value(encode_utf8(vals.last())) {
                Err(LambdaError::InvalidHeaderValue)
            } else {
                Ok(fs.push((normalized_header_name(encode_utf8(name)), encode_utf8(vals.last()))))
            },
        }
    }
}

/// The header fields of all names, in order.
pub open spec fn header_fields(gs: Seq<(Seq<char>, Seq<Seq<char>>)>) -> FieldsResult
    decreases gs.len(),
{
    if gs.len() == 0 {
        Ok(Seq::empty())
    } else {
        match header_fields(gs.drop_last()) {
            Err(e) => Err(e),
            Ok(fs) => match entry_fields(gs.last().0, gs.last().1) {
                Err(e) => Err(e),
                Ok(more) => Ok(fs + more),
            },
        }
    }
}

/// The response body: none is empty, base64 is decoded, text is its bytes.
pub open spec fn response_body(body: Option<Seq<char>>, base64: bool) -> Result<Seq<u8>, LambdaError> {
    match body {
        None => Ok(Seq::empty()),
        Some(b) => if base64 {
            match base64_decoded(b) {
                Some(x) => Ok(x),
                None => Err(LambdaError::InvalidBody),
            }
        } else {
            Ok(encode_utf8(b))
        },
    }
}

pub open spec fn body_view(b: Option<String>) -> Option<Seq<char>> {
    match b {
        Some(s) => Some(s@),
        None => None,
    }
}

/// The HTTP response a guest's response stands for.
pub open spec fn http_parts(r: LambdaResponse) -> Result<(u16, Seq<(Seq<u8>, Seq<u8>)>, Seq<u8>), LambdaError> {
    if !(100 <= r.status_code <= 999) {
        Err(LambdaError::InvalidStatus)
    } else {
        match header_fields(str_groups(r.headers@)) {
            Err(e) => Err(e),
            Ok(hs) => match response_body(body_view(r.body), r.is_base64_encoded) {
                Err(e) => Err(e),
                Ok(b) => Ok((r.status_code, hs, b)),
            },
        }
    }
}

fn push_entry_fields(out: &mut Vec<(Vec<u8>, Vec<u8>)>, name: &String, vals: &Vec<String>) -> (r: Result<(), LambdaError>)
    ensures
        match entry_fields(name@, vals@.map_values(|s: String| s@)) {
            Ok(fs) => r is Ok && byte_pairs(final(out)@) == byte_pairs(old(out)@) + fs,
            Err(e) => r == Err::<(), LambdaError>(e),
        },
{
    let ghost vs = vals@.map_values(|s: String| s@);
    let ghost start = byte_pairs(out@);
    let mut j: usize = 0;
    assert(start + Seq::<(Seq<u8>, Seq<u8>)>::empty() =~= start);
    assert(vs.subrange(0, 0) =~= Seq::<Seq<char>>::empty());
    while j < vals.len()
        invariant
            0 <= j <= vals@.len(),
            vs == vals@.map_values(|s: String| s@),
            start == byte_pairs(old(out)@),
            entry_fields(name@, vs.subrange(0, j as int)) matches Ok(fs) && byte_pairs(out@) == start + fs,
        decreases vals@.len() - j,
    {
        assert(vs.subrange(0, j + 1).drop_last() =~= vs.subrange(0, j as int));
        let n = match header_name(name.as_str().as_bytes()) {
            Some(n) => n,
            None => {
                proof { lemma_entry_fields_err(name@, vs, j + 1); }
                return Err(LambdaError::InvalidHeaderName);
            },
        };
        let v = vals[j].as_str().as_bytes();
        if !is_header_value(v) {
            proof { lemma_entry_fields_err(name@, vs, j + 1); }
            return Err(LambdaError::InvalidHeaderValue);
        }
        let ghost before = byte_pairs(out@);
        out.push((n, vstd::slice::slice_to_vec(v)));
        assert(byte_pairs(out@) =~= before.push((normalized_header_name(encode_utf8(name@)), encode_utf8(vs[j as int]))));
        j = j + 1;
        assert(byte_pairs(out@) =~= start + entry_fields(name@, vs.subrange(0, j as int))->Ok_0);
    }
    assert(vs.subrange(0, vals@.len() as int) =~= vs);
    Ok(())
}

proof fn lemma_entry_fields_err(name: Seq<char>, vs: Seq<Seq<char>>, k: int)
    requires
        0 < k <= vs.len(),
        entry_fields(name, vs.subrange(0, k)) is Err,
    ensures
        entry_fields(name, vs) == entry_fields(name, vs.subrange(0, k)),
    decreases vs.len() - k,
{
    if k < vs.len() {
        assert(vs.subrange(0, k + 1).drop_last() =~= vs.subrange(0, k));
        lemma_entry_fields_err(name, vs, k + 1);
    } else {
        assert(vs.subrange(0, k) =~= vs);
    }
}

proof fn lemma_header_fields_err(gs: Seq<(Seq<char>, Seq<Seq<char>>)>, k: int)
    requires
        0 < k <= gs.len(),
        header_fields(gs.subrange(0, k)) is Err,
    ensures
        header_fields(gs) == header_fields(gs.subrange(0, k)),
    decreases gs.len() - k,
{
    if k < gs.len() {
        assert(gs.subrange(0, k + 1).drop_last() =~= gs.subrange(0, k));
        lemma_header_fields_err(gs, k + 1);
    } else {
        assert(gs.subrange(0, k) =~= gs);
    }
}

impl LambdaResponse {
    /// The HTTP response this stands for: its status (which must lie in 100
    /// to 999), one header field per value, and its body, base64-decoded
    /// when flagged so; no body is an empty one.
    pub fn into_http(self) -> (r: Result<HttpResponse, LambdaError>)
        ensures
            match http_parts(self) {
                Ok(p) => r matches Ok(h) && h.status == p.0 && byte_pairs(h.headers@) == p.1
                    && h.body@ == p.2,
                Err(e) => r == Err::<HttpResponse, LambdaError>(e),
            },
    {
        if self.status_code < 100 || self.status_code > 999 {
            return Err(LambdaError::InvalidStatus);
        }
        let ghost gs = str_groups(self.headers@);
        let mut out: Vec<(Vec<u8>, Vec<u8>)> = Vec::new();
        let mut i: usize = 0;
        assert(byte_pairs(out@) =~= Seq::<(Seq<u8>, Seq<u8>)>::empty());
        assert(gs.subrange(0, 0) =~= Seq::<(Seq<char>, Seq<Seq<char>>)>::empty());
        while i < self.headers.len()
            invariant
                0 <= i <= self.headers@.len(),
                100 <= self.status_code <= 999,
                gs == str_groups(self.headers@),
                header_fields(gs.subrange(0, i as int)) == Ok::<_, LambdaError>(byte_pairs(out@)),
            decreases self.headers@.len() - i,
        {
            assert(gs.subrange(0, i + 1).drop_last() =~= gs.subrange(0, i as int));
            assert(gs.subrange(0, i + 1).last() == gs[i as int]);
            assert(gs[i as int] == (self.headers@[i as int].0@, self.headers@[i as int].1@.map_values(
                |s: String| s@,
            )));
            let ghost before = byte_pairs(out@);
            match push_entry_fields(&mut out, &self.headers[i].0, &self.headers[i].1) {
                Ok(()) => {},
                Err(e) => {
                    assert(header_fields(gs.subrange(0, i + 1)) == FieldsResult::Err(e));
                    proof { lemma_header_fields_err(gs, i + 1); }
                    return Err(e);
                },
            }
            i = i + 1;
        }
        assert(gs.subrange(0, self.headers@.len() as int) =~= gs);
        let body = match &self.body {
            None => Vec::new(),
            Some(b) => if self.is_base64_encoded {
                match base64_decode(b.as_str()) {
                    Some(x) => x,
                    None => {
                        return Err(LambdaError::InvalidBody);
                    },
                }
            } else {
                vstd::slice::slice_to_vec(b.as_str().as_bytes())
            },
        };
        Ok(HttpResponse { status: self.status_code, headers: out, body })
    }
}

/// The state a guest's host calls share during one invocation: the event,
/// as JSON bytes, and the slot for the guest's response.
#[derive(Debug)]
pub struct LambdaState {
    request: Vec<u8>,
    response: Option<LambdaResponse>,
}

impl LambdaState {
    /// The event bytes.
    pub closed spec fn event_bytes(&self) -> Seq<u8> {
        self.request@
    }

    /// The response the guest sent last, if any.
    pub closed spec fn slot(&self) -> Option<LambdaResponse> {
        self.response
    }

    pub fn new(request: Vec<u8>) -> (r: Self)
        ensures
            r.event_bytes() == request@,
            r.slot() is None,
    {
        LambdaState { request, response: None }
    }

    /// The bytes that a guest buffer of `buf_len` bytes receives: the event,
    /// cut to the buffer's length.
    pub fn event(&self, buf_len: u32) -> (r: Vec<u8>)
        ensures
            r@ == self.event_bytes().subrange(
                0,
                if buf_len < self.event_bytes().len() {
                    buf_len as int
                } else {
                    self.event_bytes().len() as int
                },
            ),
    {
        let n: usize = if (buf_len as usize) < self.request.len() {
            buf_len as usize
        } else {
            self.request.len()
        };
        crate::bytes::copy_range(self.request.as_slice(), 0, n)
    }

    /// The length of the event, when it fits in a `u32`.
    pub fn event_size(&self) -> (r: Option<u32>)
        ensures
            r matches Some(n) ==> n == self.event_bytes().len(),
            r is None <==> self.event_bytes().len() > u32::MAX,
    {
        if self.request.len() <= u32::MAX as usize {
            Some(self.request.len() as u32)
        } else {
            None
        }
    }

    /// Takes what the guest sent, already read as a response (`None` when it
    /// was not valid): a response fills the slot and yields 0; anything else
    /// leaves the slot as it was and yields -1.
    pub fn send_response(&mut self, parsed: Option<LambdaResponse>) -> (r: i32)
        ensures
            final(self).event_bytes() == old(self).event_bytes(),
            parsed is Some ==> r == 0 && final(self).slot() == parsed,
            parsed is None ==> r == -1 && final(self).slot() == old(self).slot(),
    {
        match parsed {
            Some(resp) => {
                self.response = Some(resp);
                0
            },
            None => -1,
        }
    }

    /// Empties the slot, handing over what it held.
    pub fn take_response(&mut self) -> (r: Option<LambdaResponse>)
        ensures
            r == old(self).slot(),
            final(self).slot() is None,
            final(self).event_bytes() == old(self).event_bytes(),
    {
        self.response.take()
    }
}

/// The HTTP response for a finished invocation: the guest's response, or
/// `NoResponse` when it sent none.
pub fn respond(sent: Option<LambdaResponse>) -> (r: Result<HttpResponse, LambdaError>)
    ensures
        sent is None ==> r == Err::<HttpResponse, LambdaError>(LambdaError::NoResponse),
        sent matches Some(resp) ==> match http_parts(resp) {
            Ok(p) => r matches Ok(h) && h.status == p.0 && byte_pairs(h.headers@) == p.1
                && h.body@ == p.2,
            Err(e) => r == Err::<HttpResponse, LambdaError>(e),
        },
{
    match sent {
        None => Err(LambdaError::NoResponse),
        Some(resp) => resp.into_http(),
    }
}

} // verus!
