//! The CGI environment handed to a script for an HTTP request.
use vstd::prelude::*;
use crate::bytes::{ascii_bytes, ascii_vec, byte_pairs, concat, copy_range, eq_ignore_ascii_case};
use crate::dispatch::ScriptMatch;
use crate::headers::normalized_header_name;

verus! {

/// The HTTP versions a request can arrive in.
#[derive(Debug, Clone, Copy, PartialEq, Eq, Structural)]
pub enum HttpVersion {
    Http09,
    Http10,
    Http11,
    Http2,
    Http3,
}

pub open spec fn protocol_name(v: HttpVersion) -> Seq<u8> {
    match v {
        HttpVersion::Http09 => ascii_bytes("HTTP/0.9"@),
        HttpVersion::Http10 => ascii_bytes("HTTP/1.0"@),
        HttpVersion::Http11 => ascii_bytes("HTTP/1.1"@),
        HttpVersion::Http2 => ascii_bytes("HTTP/2.0"@),
        HttpVersion::Http3 => ascii_bytes("HTTP/3.0"@),
    }
}

/// The `SERVER_PROTOCOL` value for a request's HTTP version.
pub fn server_protocol(v: HttpVersion) -> (r: Vec<u8>)
    ensures
        r@ == protocol_name(v),
{
    proof {
        reveal_strlit("HTTP/0.9");
        reveal_strlit("HTTP/1.0");
        reveal_strlit("HTTP/1.1");
        reveal_strlit("HTTP/2.0");
        reveal_strlit("HTTP/3.0");
    }
    match v {
        HttpVersion::Http09 => ascii_vec("HTTP/0.9"),
        HttpVersion::Http10 => ascii_vec("HTTP/1.0"),
        HttpVersion::Http11 => ascii_vec("HTTP/1.1"),
        HttpVersion::Http2 => ascii_vec("HTTP/2.0"),
        HttpVersion::Http3 => ascii_vec("HTTP/3.0"),
    }
}

/// A header-name byte as it stands in a CGI variable name: upper case, with
/// `_` for `-`.
pub open spec fn cgi_name_byte(b: u8) -> u8 {
    if b == 45 {
        95u8
    } else if 97 <= b <= 122 {
        (b - 32) as u8
    } else {
        b
    }
}

/// The CGI variable for a header that CGI does not name specially.
pub open spec fn http_var_name(name: Seq<u8>) -> Seq<u8> {
    ascii_bytes("HTTP_"@) + name.map_values(|b: u8| cgi_name_byte(b))
}

/// `HTTP_` followed by the header name in upper case, `-` turned into `_`.
pub fn to_cgi_http_header(name: &[u8]) -> (r: Vec<u8>)
    ensures
        r@ == http_var_name(name@),
{
    proof {
        reveal_strlit("HTTP_");
    }
    let mut r = ascii_vec("HTTP_");
    let ghost prefix = r@;
    let mut i: usize = 0;
    while i < name.len()
        invariant
            0 <= i <= name@.len(),
            prefix == ascii_bytes("HTTP_"@),
            r@ == prefix + name@.subrange(0, i as int).map_values(|b: u8| cgi_name_byte(b)),
        decreases name@.len() - i,
    {
        let b = name[i];
        let c: u8 = if b == 45u8 {
            95u8
        } else if 97u8 <= b && b <= 122u8 {
            b - 32
        } else {
            b
        };
        r.push(c);
        i = i + 1;
        assert(r@ =~= prefix + name@.subrange(0, i as int).map_values(|b: u8| cgi_name_byte(b)));
    }
    assert(name@.subrange(0, name@.len() as int) =~= name@);
    r
}

/// The CGI variable for one request header: `CONTENT_TYPE` and
/// `CONTENT_LENGTH` for those two headers, `HTTP_<NAME>` for any other.
pub open spec fn header_var(name: Seq<u8>, value: Seq<u8>) -> (Seq<u8>, Seq<u8>) {
    if normalized_header_name(name) == ascii_bytes("content-type"@) {
        (ascii_bytes("CONTENT_TYPE"@), value)
    } else if normalized_header_name(name) == ascii_bytes("content-length"@) {
        (ascii_bytes("CONTENT_LENGTH"@), value)
    } else {
        (http_var_name(name), value)
    }
}

pub fn cgi_header_var(name: &[u8], value: &[u8]) -> (r: (Vec<u8>, Vec<u8>))
    ensures
        (r.0@, r.1@) == header_var(name@, value@),
{
    proof {
        reveal_strlit("content-type");
        reveal_strlit("content-length");
        reveal_strlit("CONTENT_TYPE");
        reveal_strlit("CONTENT_LENGTH");
    }
    let content_type = ascii_vec("content-type");
    let content_length = ascii_vec("content-length");
    assert(content_type@.map_values(|b: u8| crate::bytes::lower_ascii(b)) =~= content_type@);
    assert(content_length@.map_values(|b: u8| crate::bytes::lower_ascii(b)) =~= content_length@);
    let v = copy_range(value, 0, value.len());
    assert(v@ =~= value@);
    if eq_ignore_ascii_case(name, content_type.as_slice()) {
        (ascii_vec("CONTENT_TYPE"), v)
    } else if eq_ignore_ascii_case(name, content_length.as_slice()) {
        (ascii_vec("CONTENT_LENGTH"), v)
    } else {
        (to_cgi_http_header(name), v)
    }
}

/// The variables that do not depend on the headers, in order.
pub open spec fn fixed_vars(method: Seq<u8>, version: HttpVersion, query: Option<Seq<u8>>) -> Seq<
    (Seq<u8>, Seq<u8>),
> {
    seq![
        (ascii_bytes("GATEWAY_INTERFACE"@), ascii_bytes("CGI/1.1"@)),
        (ascii_bytes("SERVER_SOFTWARE"@), ascii_bytes("wgi"@)),
        (ascii_bytes("SERVER_NAME"@), ascii_bytes("127.0.0.1"@)),
        (ascii_bytes("SERVER_PORT"@), ascii_bytes("9000"@)),
        (ascii_bytes("SERVER_PROTOCOL"@), protocol_name(version)),
        (ascii_bytes("REQUEST_METHOD"@), method),
        (ascii_bytes("QUERY_STRING"@), match query {
            Some(q) => q,
            None => Seq::empty(),
        }),
    ]
}

/// The variables that come from dispatch: `PATH_INFO` and `PATH_TRANSLATED`
/// when there is extra path information, then `SCRIPT_NAME`.
pub open spec fn script_vars(script: Option<(Seq<u8>, Seq<u8>)>, cwd: Seq<u8>) -> Seq<
    (Seq<u8>, Seq<u8>),
> {
    match script {
        None => Seq::empty(),
        Some((name, info)) => if info.len() > 0 {
            seq![
                (ascii_bytes("PATH_INFO"@), info),
                (ascii_bytes("PATH_TRANSLATED"@), cwd + info),
                (ascii_bytes("SCRIPT_NAME"@), name),
            ]
        } else {
            seq![(ascii_bytes("SCRIPT_NAME"@), name)]
        },
    }
}

/// The whole CGI environment, in order.
pub open spec fn cgi_env(
    method: Seq<u8>,
    version: HttpVersion,
    query: Option<Seq<u8>>,
    script: Option<(Seq<u8>, Seq<u8>)>,
    cwd: Seq<u8>,
    headers: Seq<(Seq<u8>, Seq<u8>)>,
) -> Seq<(Seq<u8>, Seq<u8>)> {
    fixed_vars(method, version, query) + script_vars(script, cwd) + headers.map_values(
        |h: (Seq<u8>, Seq<u8>)| header_var(h.0, h.1),
    )
}

pub open spec fn script_view(script: Option<&ScriptMatch>) -> Option<(Seq<u8>, Seq<u8>)> {
    match script {
        Some(m) => Some((m.script_name@, m.path_info@)),
        None => None,
    }
}

/// Each header `H: v` becomes exactly one variable, in header order after the
/// others: `CONTENT_TYPE=v` for `Content-Type`, `CONTENT_LENGTH=v` for
/// `Content-Length`, and `HTTP_<NAME>=v` for any other header, never both a
/// special name and an `HTTP_` one.
pub proof fn lemma_header_env_mapping(
    method: Seq<u8>,
    version: HttpVersion,
    query: Option<Seq<u8>>,
    script: Option<(Seq<u8>, Seq<u8>)>,
    cwd: Seq<u8>,
    headers: Seq<(Seq<u8>, Seq<u8>)>,
    i: int,
)
    requires
        0 <= i < headers.len(),
    ensures
        ({
            let env = cgi_env(method, version, query, script, cwd, headers);
            let off = fixed_vars(method, version, query).len() + script_vars(script, cwd).len();
            let (name, value) = headers[i];
            &&& env.len() == off + headers.len()
            &&& env[off + i].1 == value
            &&& normalized_header_name(name) == ascii_bytes("content-type"@) ==> env[off + i].0
                == ascii_bytes("CONTENT_TYPE"@)
            &&& normalized_header_name(name) == ascii_bytes("content-length"@) ==> env[off + i].0
                == ascii_bytes("CONTENT_LENGTH"@)
            &&& normalized_header_name(name) != ascii_bytes("content-type"@)
                && normalized_header_name(name) != ascii_bytes("content-length"@) ==> env[off
                + i].0 == http_var_name(name)
            &&& env[off + i].0 == http_var_name(name) ==> env[off + i].0 != ascii_bytes(
                "CONTENT_TYPE"@,
            ) && env[off + i].0 != ascii_bytes("CONTENT_LENGTH"@)
        }),
{
    reveal_strlit("CONTENT_TYPE");
    reveal_strlit("CONTENT_LENGTH");
    reveal_strlit("HTTP_");
    reveal_strlit("content-type");
    reveal_strlit("content-length");
    assert(ascii_bytes("content-type"@)[8] != ascii_bytes("content-length"@)[8]);
    let env = cgi_env(method, version, query, script, cwd, headers);
    let off = fixed_vars(method, version, query).len() + script_vars(script, cwd).len();
    let (name, value) = headers[i];
    assert(env[off + i] == header_var(name, value));
    let h = http_var_name(name);
    assert(h[0] == 72u8);
    assert(ascii_bytes("CONTENT_TYPE"@)[0] == 67u8);
    assert(ascii_bytes("CONTENT_LENGTH"@)[0] == 67u8);
}

fn push_var(vars: &mut Vec<(Vec<u8>, Vec<u8>)>, name: Vec<u8>, value: Vec<u8>)
    ensures
        byte_pairs(final(vars)@) == byte_pairs(old(vars)@).push((name@, value@)),
{
    vars.push((name, value));
    assert(byte_pairs(vars@) =~= byte_pairs(old(vars)@).push((name@, value@)));
}

/// The CGI/1.1 environment for a request: server and request facts, what
/// dispatch found (`cwd` is the server's working directory), then one
/// variable per header.
pub fn cgi_vars(
    method: &[u8],
    version: HttpVersion,
    query: Option<&[u8]>,
    script: Option<&ScriptMatch>,
    cwd: &[u8],
    headers: &Vec<(Vec<u8>, Vec<u8>)>,
) -> (r: Vec<(Vec<u8>, Vec<u8>)>)
    ensures
        byte_pairs(r@) == cgi_env(
            method@,
            version,
            match query {
                Some(q) => Some(q@),
                None => None,
            },
            script_view(script),
            cwd@,
            byte_pairs(headers@),
        ),
{
    proof {
        reveal_strlit("GATEWAY_INTERFACE");
        reveal_strlit("CGI/1.1");
        reveal_strlit("SERVER_SOFTWARE");
        reveal_strlit("wgi");
        reveal_strlit("SERVER_NAME");
        reveal_strlit("127.0.0.1");
        reveal_strlit("SERVER_PORT");
        reveal_strlit("9000");
        reveal_strlit("SERVER_PROTOCOL");
        reveal_strlit("REQUEST_METHOD");
        reveal_strlit("QUERY_STRING");
        reveal_strlit("PATH_INFO");
        reveal_strlit("PATH_TRANSLATED");
        reveal_strlit("SCRIPT_NAME");
    }
    let ghost q = match query {
        Some(q) => Some(q@),
        None => None,
    };
    let mut vars: Vec<(Vec<u8>, Vec<u8>)> = Vec::new();
    push_var(&mut vars, ascii_vec("GATEWAY_INTERFACE"), ascii_vec("CGI/1.1"));
    push_var(&mut vars, ascii_vec("SERVER_SOFTWARE"), ascii_vec("wgi"));
    push_var(&mut vars, ascii_vec("SERVER_NAME"), ascii_vec("127.0.0.1"));
    push_var(&mut vars, ascii_vec("SERVER_PORT"), ascii_vec("9000"));
    push_var(&mut vars, ascii_vec("SERVER_PROTOCOL"), server_protocol(version));
    push_var(&mut vars, ascii_vec("REQUEST_METHOD"), copy_range(method, 0, method.len()));
    let qs = match query {
        Some(q) => {
            let v = copy_range(q, 0, q.len());
            assert(v@ =~= q@);
            v
        },
        None => Vec::new(),
    };
    assert(qs@ =~= match q {
        Some(q) => q,
        None => Seq::<u8>::empty(),
    });
    push_var(&mut vars, ascii_vec("QUERY_STRING"), qs);
    assert(method@.subrange(0, method@.len() as int) =~= method@);
    assert(byte_pairs(vars@) =~= fixed_vars(method@, version, q));
    let ghost fixed = byte_pairs(vars@);
    if let Some(m) = script {
        if m.path_info.len() > 0 {
            push_var(&mut vars, ascii_vec("PATH_INFO"), copy_range(m.path_info.as_slice(), 0, m.path_info.len()));
            push_var(&mut vars, ascii_vec("PATH_TRANSLATED"), concat(cwd, m.path_info.as_slice()));
        }
        push_var(&mut vars, ascii_vec("SCRIPT_NAME"), copy_range(m.script_name.as_slice(), 0, m.script_name.len()));
        assert(m.path_info@.subrange(0, m.path_info@.len() as int) =~= m.path_info@);
        assert(m.script_name@.subrange(0, m.script_name@.len() as int) =~= m.script_name@);
    }
    assert(byte_pairs(vars@) =~= fixed + script_vars(script_view(script), cwd@));
    let ghost before = byte_pairs(vars@);
    let ghost hs = byte_pairs(headers@);
    let mut i: usize = 0;
    while i < headers.len()
        invariant
            0 <= i <= headers@.len(),
            hs == byte_pairs(headers@),
            byte_pairs(vars@) == before + hs.subrange(0, i as int).map_values(
                |h: (Seq<u8>, Seq<u8>)| header_var(h.0, h.1),
            ),
        decreases headers@.len() - i,
    {
        let (name, value) = cgi_header_var(headers[i].0.as_slice(), headers[i].1.as_slice());
        push_var(&mut vars, name, value);
        i = i + 1;
        assert(hs.subrange(0, i as int).map_values(|h: (Seq<u8>, Seq<u8>)| header_var(h.0, h.1))
            =~= hs.subrange(0, i - 1).map_values(|h: (Seq<u8>, Seq<u8>)| header_var(h.0, h.1)).push(
            header_var(hs[i - 1].0, hs[i - 1].1),
        ));
    }
    assert(hs.subrange(0, hs.len() as int) =~= hs);
    vars
}

} // verus!
