//! The CGI protocol: what a script writes on stdout, read back as an HTTP
//! response.
use vstd::prelude::*;
use crate::bytes::{byte_pairs, bytes_eq, copy_range, eq_ignore_ascii_case, lower_ascii, ascii_vec};
use crate::headers::{
    header_name, is_header_value, normalized_header_name, valid_header_name, valid_header_value,
};
use crate::logging::{complete_lines, is_newline, lemma_tail_of_line_free, unterminated_tail};
use vstd::string::StringSliceAdditionalSpecFns;

verus! {

/// Why a script's output is not a valid response.
#[derive(Debug, Clone, Copy, PartialEq, Eq, Structural)]
pub enum CgiError {
    /// A `Status` header whose value does not start with a status code.
    InvalidStatus,
    /// A header whose name is not a valid HTTP header name.
    InvalidHeaderName,
    /// A header whose value holds a byte an HTTP header value may not hold.
    InvalidHeaderValue,
}

/// An HTTP response produced by a CGI script.
#[derive(Debug)]
pub struct CgiResponse {
    pub status: u16,
    /// Lower-case header names, each at most once, with their values.
    pub headers: Vec<(Vec<u8>, Vec<u8>)>,
    pub body: Vec<u8>,
}

impl CgiResponse {
    pub fn new(status: u16, headers: Vec<(Vec<u8>, Vec<u8>)>, body: Vec<u8>) -> (r: Self)
        ensures
            r.status == status,
            r.headers@ == headers@,
            r.body@ == body@,
    {
        CgiResponse { status, headers, body }
    }
}

/// The index of the first `b` in `s` at or after `from`.
pub open spec fn index_of(s: Seq<u8>, b: u8, from: int) -> Option<int>
    decreases s.len() - from,
{
    if from < 0 || from >= s.len() {
        None
    } else if s[from] == b {
        Some(from)
    } else {
        index_of(s, b, from + 1)
    }
}

/// The index of the first blank line (`"\n\n"`) in `s` at or after `from`.
pub open spec fn blank_line_from(s: Seq<u8>, from: int) -> Option<int>
    decreases s.len() - from,
{
    if from < 0 || from + 1 >= s.len() {
        None
    } else if s[from] == 10 && s[from + 1] == 10 {
        Some(from)
    } else {
        blank_line_from(s, from + 1)
    }
}

/// The lines of a header block: split at each newline, the last one included.
pub open spec fn header_lines(h: Seq<u8>) -> Seq<Seq<u8>> {
    complete_lines(h).push(unterminated_tail(h))
}

/// A line without its trailing carriage return.
pub open spec fn strip_cr(l: Seq<u8>) -> Seq<u8> {
    if l.len() > 0 && l.last() == 13 {
        l.drop_last()
    } else {
        l
    }
}

pub open spec fn is_ascii_whitespace(b: u8) -> bool {
    b == 32 || b == 9 || b == 10 || b == 11 || b == 12 || b == 13
}

/// `v` without its leading whitespace.
pub open spec fn trim_start(v: Seq<u8>) -> Seq<u8>
    decreases v.len(),
{
    if v.len() > 0 && is_ascii_whitespace(v[0]) {
        trim_start(v.drop_first())
    } else {
        v
    }
}

/// The status code that a `Status` value starts with: its text up to the
/// first space, which must be three digits, the first not zero.
pub open spec fn status_code_of(v: Seq<u8>) -> Option<u16> {
    let t = match index_of(v, 32, 0) {
        Some(i) => v.subrange(0, i),
        None => v,
    };
    if t.len() == 3 && 49 <= t[0] <= 57 && 48 <= t[1] <= 57 && 48 <= t[2] <= 57 {
        Some((100 * (t[0] - 48) + 10 * (t[1] - 48) + (t[2] - 48)) as u16)
    } else {
        None
    }
}

/// The header name `status`.
pub open spec fn status_name() -> Seq<u8> {
    seq![115u8, 116u8, 97u8, 116u8, 117u8, 115u8]
}

/// Where `name` stands in `hs` at or after `from`.
pub open spec fn index_of_name(hs: Seq<(Seq<u8>, Seq<u8>)>, name: Seq<u8>, from: int) -> Option<int>
    decreases hs.len() - from,
{
    if from < 0 || from >= hs.len() {
        None
    } else if hs[from].0 == name {
        Some(from)
    } else {
        index_of_name(hs, name, from + 1)
    }
}

/// `hs` with `name` set to `value`: in place where the name is already
/// there, else at the end.
pub open spec fn insert_header(hs: Seq<(Seq<u8>, Seq<u8>)>, name: Seq<u8>, value: Seq<u8>) -> Seq<
    (Seq<u8>, Seq<u8>),
> {
    match index_of_name(hs, name, 0) {
        Some(i) => hs.update(i, (name, value)),
        None => hs.push((name, value)),
    }
}

pub type HeadState = Result<(u16, Seq<(Seq<u8>, Seq<u8>)>), CgiError>;

/// The effect of one header line: `Key: Value` sets the status or a header;
/// a line without `:` is skipped.
pub open spec fn apply_line(acc: HeadState, line: Seq<u8>) -> HeadState {
    match acc {
        Err(e) => Err(e),
        Ok((status, hs)) => {
            let l = strip_cr(line);
            match index_of(l, 58, 0) {
                None => Ok((status, hs)),
                Some(c) => {
                    let key = l.subrange(0, c);
                    let value = trim_start(l.subrange(c + 1, l.len() as int));
                    if normalized_header_name(key) == status_name() {
                        match status_code_of(value) {
                            Some(code) => Ok((code, hs)),
                            None => Err(CgiError::InvalidStatus),
                        }
                    } else if !valid_header_name(key) {
                        Err(CgiError::InvalidHeaderName)
                    } else if !valid_header_value(value) {
                        Err(CgiError::InvalidHeaderValue)
                    } else {
                        Ok((status, insert_header(hs, normalized_header_name(key), value)))
                    }
                },
            }
        },
    }
}

/// The status and headers set by `lines`, read in order from status 200 and
/// no headers.
pub open spec fn apply_lines(lines: Seq<Seq<u8>>) -> HeadState
    decreases lines.len(),
{
    if lines.len() == 0 {
        Ok((200u16, Seq::empty()))
    } else {
        apply_line(apply_lines(lines.drop_last()), lines.last())
    }
}

/// A script's output read as a response: status, headers and body.
pub open spec fn parse_cgi(s: Seq<u8>) -> Result<(u16, Seq<(Seq<u8>, Seq<u8>)>, Seq<u8>), CgiError> {
    match blank_line_from(s, 0) {
        None => Ok((200u16, Seq::empty(), s)),
        Some(i) => match apply_lines(header_lines(s.subrange(0, i))) {
            Ok((status, hs)) => Ok((status, hs, s.subrange(i + 2, s.len() as int))),
            Err(e) => Err(e),
        },
    }
}

proof fn lemma_index_of_at(s: Seq<u8>, b: u8, from: int, m: int)
    requires
        0 <= from <= m < s.len(),
        s[m] == b,
        forall|i: int| from <= i < m ==> s[i] != b,
    ensures
        index_of(s, b, from) == Some(m),
    decreases m - from,
{
    if from < m {
        lemma_index_of_at(s, b, from + 1, m);
    }
}

proof fn lemma_blank_line_at(s: Seq<u8>, from: int, m: int)
    requires
        0 <= from <= m,
        m + 1 < s.len(),
        s[m] == 10 && s[m + 1] == 10,
        forall|i: int| from <= i < m ==> !(#[trigger] s[i] == 10 && s[i + 1] == 10),
    ensures
        blank_line_from(s, from) == Some(m),
    decreases m - from,
{
    if from < m {
        lemma_blank_line_at(s, from + 1, m);
    }
}

proof fn lemma_lines_extend_free(s: Seq<u8>, t: Seq<u8>)
    requires
        forall|i: int| 0 <= i < t.len() ==> !is_newline(#[trigger] t[i]),
    ensures
        complete_lines(s + t) == complete_lines(s),
        unterminated_tail(s + t) == unterminated_tail(s) + t,
    decreases t.len(),
{
    if t.len() == 0 {
        assert(s + t =~= s);
        assert(unterminated_tail(s) + t =~= unterminated_tail(s));
    } else {
        lemma_lines_extend_free(s, t.drop_last());
        assert((s + t).drop_last() =~= s + t.drop_last());
        assert(unterminated_tail(s) + t =~= (unterminated_tail(s) + t.drop_last()).push(t.last()));
    }
}

/// One `Key: Value` header line as a script writes it.
pub open spec fn header_line(key: Seq<u8>, value: Seq<u8>) -> Seq<u8> {
    key + seq![58u8, 32u8] + value
}

/// A value that reads back as written: valid, and not starting with
/// whitespace that reading would strip.
pub open spec fn plain_header_value(v: Seq<u8>) -> bool {
    valid_header_value(v) && (v.len() == 0 || !is_ascii_whitespace(v[0]))
}

proof fn lemma_apply_header_line(
    status: u16,
    hs: Seq<(Seq<u8>, Seq<u8>)>,
    key: Seq<u8>,
    value: Seq<u8>,
)
    requires
        valid_header_name(key),
        normalized_header_name(key) != status_name(),
        plain_header_value(value),
    ensures
        apply_line(Ok((status, hs)), header_line(key, value)) == HeadState::Ok(
            (status, insert_header(hs, normalized_header_name(key), value)),
        ),
{
    let l = header_line(key, value);
    assert(strip_cr(l) == l) by {
        if value.len() > 0 {
            assert(l.last() == value.last());
        } else {
            assert(l.last() == 32u8);
        }
    }
    assert forall|i: int| 0 <= i < key.len() implies l[i] != 58u8 by {
        assert(l[i] == key[i]);
    }
    lemma_index_of_at(l, 58u8, 0, key.len() as int);
    assert(l.subrange(0, key.len() as int) =~= key);
    let rest = l.subrange(key.len() as int + 1, l.len() as int);
    assert(rest.drop_first() =~= value);
    assert(rest[0] == 32u8);
    assert(trim_start(value) == value);
    assert(trim_start(rest) == value);
}

/// A response of two header lines `K1: V1` and `K2: V2`, a blank line and a
/// body reads back as those two headers (names in lower case), that body, and
/// status 200, when neither header is `Status`.
pub proof fn lemma_cgi_header_round_trip(
    k1: Seq<u8>,
    v1: Seq<u8>,
    k2: Seq<u8>,
    v2: Seq<u8>,
    body: Seq<u8>,
)
    requires
        valid_header_name(k1),
        valid_header_name(k2),
        normalized_header_name(k1) != status_name(),
        normalized_header_name(k2) != status_name(),
        normalized_header_name(k1) != normalized_header_name(k2),
        plain_header_value(v1),
        plain_header_value(v2),
    ensures
        parse_cgi(header_line(k1, v1) + seq![10u8] + header_line(k2, v2) + seq![10u8, 10u8] + body)
            == Ok::<_, CgiError>(
            (
                200u16,
                seq![(normalized_header_name(k1), v1), (normalized_header_name(k2), v2)],
                body,
            ),
        ),
{
    let l1 = header_line(k1, v1);
    let l2 = header_line(k2, v2);
    let h = l1 + seq![10u8] + l2;
    let s = h + seq![10u8, 10u8] + body;
    assert(s == header_line(k1, v1) + seq![10u8] + header_line(k2, v2) + seq![10u8, 10u8] + body);
    assert forall|i: int| 0 <= i < l1.len() implies !is_newline(#[trigger] l1[i]) by {
        if i < k1.len() {
            assert(l1[i] == k1[i]);
        } else if i >= k1.len() + 2 {
            assert(l1[i] == v1[i - k1.len() - 2]);
        }
    }
    assert forall|i: int| 0 <= i < l2.len() implies !is_newline(#[trigger] l2[i]) by {
        if i < k2.len() {
            assert(l2[i] == k2[i]);
        } else if i >= k2.len() + 2 {
            assert(l2[i] == v2[i - k2.len() - 2]);
        }
    }
    // The first blank line ends the header block.
    assert forall|i: int| 0 <= i < h.len() implies !(#[trigger] s[i] == 10 && s[i + 1] == 10) by {
        if i < l1.len() {
            assert(s[i] == l1[i]);
        } else if i == l1.len() {
            assert(s[i + 1] == l2[0]);
            assert(l2[0] == k2[0]);
        } else {
            assert(s[i] == l2[i - l1.len() - 1]);
        }
    }
    lemma_blank_line_at(s, 0, h.len() as int);
    assert(s.subrange(0, h.len() as int) =~= h);
    assert(s.subrange(h.len() as int + 2, s.len() as int) =~= body);
    // The header block holds the two lines.
    lemma_tail_of_line_free(l1);
    let p = l1.push(10u8);
    assert(p.drop_last() =~= l1);
    assert(complete_lines(p) =~= seq![l1]);
    assert(unterminated_tail(p) =~= Seq::<u8>::empty());
    lemma_lines_extend_free(p, l2);
    assert(h =~= p + l2);
    assert(Seq::<u8>::empty() + l2 =~= l2);
    let ls = header_lines(h);
    assert(ls =~= seq![l1, l2]);
    assert(ls.drop_last() =~= seq![l1]);
    assert(seq![l1].drop_last() =~= Seq::<Seq<u8>>::empty());
    // Each line sets one header.
    let e = Seq::<(Seq<u8>, Seq<u8>)>::empty();
    lemma_apply_header_line(200u16, e, k1, v1);
    let hs1 = insert_header(e, normalized_header_name(k1), v1);
    assert(hs1 =~= seq![(normalized_header_name(k1), v1)]);
    lemma_apply_header_line(200u16, hs1, k2, v2);
    assert(index_of_name(hs1, normalized_header_name(k2), 1) is None);
    assert(insert_header(hs1, normalized_header_name(k2), v2) =~= seq![
        (normalized_header_name(k1), v1),
        (normalized_header_name(k2), v2),
    ]);
    assert(seq![l1].last() == l1);
    assert(apply_lines(Seq::<Seq<u8>>::empty()) == HeadState::Ok((200u16, e)));
    assert(apply_lines(seq![l1]) == apply_line(apply_lines(Seq::<Seq<u8>>::empty()), l1));
    assert(apply_lines(seq![l1]) == HeadState::Ok((200u16, hs1)));
    assert(ls.last() == l2);
    assert(apply_lines(ls) == HeadState::Ok((200u16, seq![
        (normalized_header_name(k1), v1),
        (normalized_header_name(k2), v2),
    ])));
}

fn find_byte(s: &[u8], b: u8, from: usize) -> (r: Option<usize>)
    ensures
        r matches Some(i) ==> index_of(s@, b, from as int) == Some(i as int) && from <= i < s@.len(),
        r is None ==> index_of(s@, b, from as int) is None,
{
    let mut i = from;
    while i < s.len()
        invariant
            from <= i,
            index_of(s@, b, from as int) == index_of(s@, b, i as int),
        decreases s@.len() - i,
    {
        if s[i] == b {
            return Some(i);
        }
        i = i + 1;
    }
    None
}

fn find_blank_line(s: &[u8]) -> (r: Option<usize>)
    ensures
        r matches Some(i) ==> blank_line_from(s@, 0) == Some(i as int) && i + 1 < s@.len(),
        r is None ==> blank_line_from(s@, 0) is None,
{
    let mut i: usize = 0;
    while s.len() > 0 && i < s.len() - 1
        invariant
            blank_line_from(s@, 0) == blank_line_from(s@, i as int),
        decreases s@.len() - i,
    {
        if s[i] == 10u8 && s[i + 1] == 10u8 {
            return Some(i);
        }
        i = i + 1;
    }
    None
}

/// Where the text of `v` starts once leading whitespace is skipped.
fn trim_start_index(v: &[u8]) -> (k: usize)
    ensures
        k <= v@.len(),
        trim_start(v@) == v@.subrange(k as int, v@.len() as int),
{
    let mut k: usize = 0;
    assert(v@.subrange(0, v@.len() as int) =~= v@);
    while k < v.len() && (v[k] == 32u8 || v[k] == 9u8 || v[k] == 10u8 || v[k] == 11u8 || v[k] == 12u8
        || v[k] == 13u8)
        invariant
            k <= v@.len(),
            trim_start(v@) == trim_start(v@.subrange(k as int, v@.len() as int)),
        decreases v@.len() - k,
    {
        assert(v@.subrange(k as int, v@.len() as int).drop_first() =~= v@.subrange(
            k + 1,
            v@.len() as int,
        ));
        k = k + 1;
    }
    k
}

fn status_code(v: &[u8]) -> (r: Option<u16>)
    ensures
        r == status_code_of(v@),
{
    let end = match find_byte(v, 32u8, 0) {
        Some(i) => i,
        None => v.len(),
    };
    let ghost t = v@.subrange(0, end as int);
    assert(t =~= match index_of(v@, 32, 0) {
        Some(i) => v@.subrange(0, i),
        None => v@,
    });
    if end == 3 && 49u8 <= v[0] && v[0] <= 57u8 && 48u8 <= v[1] && v[1] <= 57u8 && 48u8 <= v[2]
        && v[2] <= 57u8 {
        let code: u16 = 100 * (v[0] - 48) as u16 + 10 * (v[1] - 48) as u16 + (v[2] - 48) as u16;
        Some(code)
    } else {
        None
    }
}

fn set_header(headers: &mut Vec<(Vec<u8>, Vec<u8>)>, name: Vec<u8>, value: Vec<u8>)
    ensures
        byte_pairs(final(headers)@) == insert_header(byte_pairs(old(headers)@), name@, value@),
{
    let ghost hs = byte_pairs(headers@);
    let mut i: usize = 0;
    while i < headers.len()
        invariant
            headers@ == old(headers)@,
            hs == byte_pairs(headers@),
            index_of_name(hs, name@, 0) == index_of_name(hs, name@, i as int),
        decreases headers@.len() - i,
    {
        if bytes_eq(headers[i].0.as_slice(), name.as_slice()) {
            assert(index_of_name(hs, name@, 0) == Some(i as int));
            headers[i] = (name, value);
            assert(byte_pairs(headers@) =~= hs.update(i as int, (name@, value@)));
            return;
        }
        i = i + 1;
    }
    headers.push((name, value));
    assert(byte_pairs(headers@) =~= hs.push((name@, value@)));
}

/// Reads one header line into the status and the headers.
fn apply_header_line(status: &mut u16, headers: &mut Vec<(Vec<u8>, Vec<u8>)>, line: &[u8]) -> (r:
    Result<(), CgiError>)
    ensures
        apply_line(Ok((*old(status), byte_pairs(old(headers)@))), line@) == (match r {
            Ok(_) => Ok((*final(status), byte_pairs(final(headers)@))),
            Err(e) => HeadState::Err(e),
        }),
{
    let end: usize = if line.len() > 0 && line[line.len() - 1] == 13u8 {
        line.len() - 1
    } else {
        line.len()
    };
    let l = vstd::slice::slice_subrange(line, 0, end);
    assert(l@ =~= strip_cr(line@));
    let c = match find_byte(l, 58u8, 0) {
        Some(c) => c,
        None => {
            return Ok(());
        },
    };
    let key = vstd::slice::slice_subrange(l, 0, c);
    let rest = vstd::slice::slice_subrange(l, c + 1, l.len());
    let k = trim_start_index(rest);
    let value = vstd::slice::slice_subrange(rest, k, rest.len());
    assert(value@ =~= trim_start(l@.subrange(c + 1, l@.len() as int)));
    proof {
        reveal_strlit("status");
    }
    let status_key = ascii_vec("status");
    proof {
        assert(status_key@ =~= status_name());
        assert(status_name().map_values(|b: u8| lower_ascii(b)) =~= status_name());
    }
    if eq_ignore_ascii_case(key, status_key.as_slice()) {
        match status_code(value) {
            Some(code) => {
                *status = code;
                Ok(())
            },
            None => Err(CgiError::InvalidStatus),
        }
    } else {
        match header_name(key) {
            None => Err(CgiError::InvalidHeaderName),
            Some(name) => {
                if is_header_value(value) {
                    set_header(headers, name, copy_range(value, 0, value.len()));
                    assert(value@.subrange(0, value@.len() as int) =~= value@);
                    Ok(())
                } else {
                    Err(CgiError::InvalidHeaderValue)
                }
            },
        }
    }
}

impl CgiResponse {
    /// Reads a script's output. Up to the first blank line it is a header
    /// block of `Key: Value` lines, where `Status` (in any case) sets the
    /// status code; the rest is the body. Output without a blank line is all
    /// body, with status 200.
    pub fn parse(payload: &str) -> (r: Result<CgiResponse, CgiError>)
        ensures
            parse_cgi(payload.spec_bytes()) matches Ok(p) ==> r matches Ok(resp) && resp.status
                == p.0 && byte_pairs(resp.headers@) == p.1 && resp.body@ == p.2,
            parse_cgi(payload.spec_bytes()) matches Err(e) ==> r == Err::<CgiResponse, CgiError>(e),
    {
        let s = payload.as_bytes();
        let i = match find_blank_line(s) {
            None => {
                let body = copy_range(s, 0, s.len());
                assert(body@ =~= s@);
                return Ok(CgiResponse::new(200, Vec::new(), body));
            },
            Some(i) => i,
        };
        let head = vstd::slice::slice_subrange(s, 0, i);
        let mut status: u16 = 200;
        let mut headers: Vec<(Vec<u8>, Vec<u8>)> = Vec::new();
        let mut failed: Option<CgiError> = None;
        let mut line: Vec<u8> = Vec::new();
        let mut j: usize = 0;
        assert(byte_pairs(headers@) =~= Seq::<(Seq<u8>, Seq<u8>)>::empty());
        while j < head.len()
            invariant
                0 <= j <= head@.len(),
                line@ == unterminated_tail(head@.subrange(0, j as int)),
                apply_lines(complete_lines(head@.subrange(0, j as int))) == (match failed {
                    None => Ok((status, byte_pairs(headers@))),
                    Some(e) => HeadState::Err(e),
                }),
            decreases head@.len() - j,
        {
            let ghost prev = head@.subrange(0, j as int);
            let b = head[j];
            assert(head@.subrange(0, j + 1) =~= prev.push(b));
            assert(prev.push(b).drop_last() =~= prev);
            if b == 10u8 {
                let ghost ls = complete_lines(prev).push(unterminated_tail(prev));
                assert(ls.drop_last() =~= complete_lines(prev));
                if failed.is_none() {
                    match apply_header_line(&mut status, &mut headers, line.as_slice()) {
                        Ok(()) => {},
                        Err(e) => {
                            failed = Some(e);
                        },
                    }
                }
                line.clear();
            } else {
                line.push(b);
            }
            j = j + 1;
        }
        assert(head@.subrange(0, head@.len() as int) =~= head@);
        let ghost ls = header_lines(head@);
        assert(ls.drop_last() =~= complete_lines(head@));
        if failed.is_none() {
            match apply_header_line(&mut status, &mut headers, line.as_slice()) {
                Ok(()) => {},
                Err(e) => {
                    failed = Some(e);
                },
            }
        }
        match failed {
            Some(e) => Err(e),
            None => {
                let n = s.len();
                let body = copy_range(s, i + 2, n);
                Ok(CgiResponse::new(status, headers, body))
            },
        }
    }
}

} // verus!
