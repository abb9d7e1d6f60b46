//! Parsing of MCP request arguments: file URIs, traversal modes, edge kinds, depths.
use vstd::prelude::*;
use crate::context::DepthLimit;
use crate::model::{EdgeKind, GraphContextMode, edge_kind_parse};
use crate::strings::{chars_of, chars_slice, str_eq, string_from_chars, is_prefix, chars_starts_with, extend_chars};

verus! {

pub const PARSE_ERROR: i32 = -32700;
pub const METHOD_NOT_FOUND: i32 = -32601;
pub const INTERNAL_ERROR: i32 = -32603;
pub const SERVER_NOT_INITIALIZED: i32 = -32000;

/// A JSON-RPC error object.
#[derive(Debug, Clone)]
pub struct JsonRpcError {
    pub code: i32,
    pub message: String,
}

/// Value of a hexadecimal digit.
pub open spec fn hex_value(c: char) -> Option<nat> {
    if '0' <= c && c <= '9' {
        Some((c as int - '0' as int) as nat)
    } else if 'a' <= c && c <= 'f' {
        Some((c as int - 'a' as int + 10) as nat)
    } else if 'A' <= c && c <= 'F' {
        Some((c as int - 'A' as int + 10) as nat)
    } else {
        None
    }
}

/// `u8::from_str_radix(h, 16)` for texts of at most two characters: one or two
/// hex digits, or `+` followed by one hex digit.
pub open spec fn parse_hex_byte(h: Seq<char>) -> Option<u8> {
    if h.len() == 1 {
        match hex_value(h[0]) {
            Some(v) => Some(v as u8),
            None => None,
        }
    } else if h.len() == 2 {
        if h[0] == '+' {
            match hex_value(h[1]) {
                Some(v) => Some(v as u8),
                None => None,
            }
        } else {
            match (hex_value(h[0]), hex_value(h[1])) {
                (Some(a), Some(b)) => Some((a * 16 + b) as u8),
                _ => None,
            }
        }
    } else {
        None
    }
}

fn hex_digit(c: char) -> (r: Option<u8>)
    ensures
        match r {
            Some(v) => hex_value(c) == Some(v as nat),
            None => hex_value(c) is None,
        },
{
    if '0' <= c && c <= '9' {
        Some((c as u32 - '0' as u32) as u8)
    } else if 'a' <= c && c <= 'f' {
        Some((c as u32 - 'a' as u32 + 10) as u8)
    } else if 'A' <= c && c <= 'F' {
        Some((c as u32 - 'A' as u32 + 10) as u8)
    } else {
        None
    }
}

fn hex_byte(h: &Vec<char>) -> (r: Option<u8>)
    requires
        h.len() <= 2,
    ensures
        r == parse_hex_byte(h@),
{
    if h.len() == 1 {
        hex_digit(h[0])
    } else if h.len() == 2 {
        if h[0] == '+' {
            hex_digit(h[1])
        } else {
            match (hex_digit(h[0]), hex_digit(h[1])) {
                (Some(a), Some(b)) => Some(a * 16 + b),
                _ => None,
            }
        }
    } else {
        None
    }
}

/// Percent-decoding: `%` with the (up to two) characters after it becomes the byte
/// they spell in hexadecimal, taken as a character; when they spell none, they stay
/// as they were.
pub open spec fn url_decoded(s: Seq<char>) -> Seq<char>
    decreases s.len(),
{
    if s.len() == 0 {
        Seq::empty()
    } else if s[0] == '%' {
        let n: int = if s.len() >= 3 {
            2
        } else {
            s.len() - 1
        };
        let hex = s.subrange(1, 1 + n);
        let rest = s.subrange(1 + n, s.len() as int);
        match parse_hex_byte(hex) {
            Some(v) => seq![v as char] + url_decoded(rest),
            None => seq!['%'] + hex + url_decoded(rest),
        }
    } else {
        seq![s[0]] + url_decoded(s.drop_first())
    }
}

/// Percent-decoding leaves a text without `%` unchanged.
pub proof fn law_url_decode_plain_text_unchanged(s: Seq<char>)
    requires
        !s.contains('%'),
    ensures
        url_decoded(s) == s,
    decreases s.len(),
{
    if s.len() > 0 {
        assert(s[0] != '%');
        assert(!s.drop_first().contains('%')) by {
            if s.drop_first().contains('%') {
                let i = choose|i: int| 0 <= i < s.drop_first().len() && s.drop_first()[i] == '%';
                assert(s[i + 1] == '%');
            }
        }
        law_url_decode_plain_text_unchanged(s.drop_first());
        assert(seq![s[0]] + s.drop_first() =~= s);
    }
}

fn byte_char(b: u8) -> (c: char)
    ensures
        c == b as char,
{
    b as char
}

/// Percent-decodes a string (see `url_decoded`).
pub fn url_decode(s: &str) -> (r: String)
    ensures
        r@ == url_decoded(s@),
{
    let v = chars_of(s);
    let mut out: Vec<char> = Vec::new();
    let mut i: usize = 0;
    assert(v@.subrange(0, v.len() as int) =~= v@);
    assert(out@ + url_decoded(v@) =~= url_decoded(v@));
    while i < v.len()
        invariant
            i <= v.len(),
            v@ == s@,
            out@ + url_decoded(v@.subrange(i as int, v.len() as int)) == url_decoded(v@),
        decreases v.len() - i,
    {
        let ghost rest = v@.subrange(i as int, v.len() as int);
        if v[i] == '%' {
            let n: usize = if v.len() - i >= 3 {
                2
            } else {
                v.len() - i - 1
            };
            let hex = chars_slice(&v, i + 1, i + 1 + n);
            assert(hex@ =~= rest.subrange(1, 1 + n));
            assert(v@.subrange(i + 1 + n, v.len() as int) =~= rest.subrange(1 + n, rest.len() as int));
            let ghost out0 = out@;
            match hex_byte(&hex) {
                Some(b) => {
                    out.push(byte_char(b));
                    assert(out@ =~= out0 + seq![b as char]);
                },
                None => {
                    out.push('%');
                    extend_chars(&mut out, &hex);
                    assert(out@ =~= out0 + seq!['%'] + hex@);
                },
            }
            i = i + 1 + n;
        } else {
            let ghost out0 = out@;
            out.push(v[i]);
            assert(rest.drop_first() =~= v@.subrange(i + 1, v.len() as int));
            assert(out@ =~= out0 + seq![rest[0]]);
            i = i + 1;
        }
    }
    assert(v@.subrange(v.len() as int, v.len() as int) =~= Seq::<char>::empty());
    assert(out@ =~= url_decoded(v@));
    string_from_chars(&out)
}

/// The path of a `file://` URI: after the scheme, from the first `/` on (dropping
/// any host part), percent-decoded. Other URIs have no path.
pub open spec fn file_uri_path(uri: Seq<char>) -> Option<Seq<char>> {
    if is_prefix("file://"@, uri) {
        let rest = uri.subrange(7, uri.len() as int);
        let path = if rest.len() > 0 && rest[0] == '/' {
            rest
        } else if rest.contains('/') {
            rest.subrange(first_slash(rest), rest.len() as int)
        } else {
            rest
        };
        Some(url_decoded(path))
    } else {
        None
    }
}

/// Position of the first `/`.
pub open spec fn first_slash(s: Seq<char>) -> int
    decreases s.len(),
{
    if s.len() == 0 || s[0] == '/' {
        0
    } else {
        1 + first_slash(s.drop_first())
    }
}

proof fn lemma_first_slash(s: Seq<char>)
    requires
        s.contains('/'),
    ensures
        0 <= first_slash(s) < s.len(),
        s[first_slash(s)] == '/',
        forall|j: int| 0 <= j < first_slash(s) ==> s[j] != '/',
    decreases s.len(),
{
    if s[0] != '/' {
        let k = choose|k: int| 0 <= k < s.len() && s[k] == '/';
        assert(s.drop_first()[k - 1] == '/');
        lemma_first_slash(s.drop_first());
        assert forall|j: int| 0 <= j < first_slash(s) implies s[j] != '/' by {
            if j > 0 {
                assert(s[j] == s.drop_first()[j - 1]);
            }
        }
    }
}

fn find_slash(s: &Vec<char>) -> (r: Option<usize>)
    ensures
        match r {
            Some(i) => s@.contains('/') && i as int == first_slash(s@) && i < s.len(),
            None => !s@.contains('/'),
        },
{
    let mut i: usize = 0;
    while i < s.len()
        invariant
            i <= s.len(),
            forall|j: int| 0 <= j < i ==> s@[j] != '/',
        decreases s.len() - i,
    {
        if s[i] == '/' {
            proof {
                assert(s@.contains('/'));
                lemma_first_slash(s@);
                if first_slash(s@) < i {
                    assert(s@[first_slash(s@)] != '/');
                }
            }
            return Some(i);
        }
        i = i + 1;
    }
    None
}

/// The filesystem path of a `file://` URI (see `file_uri_path`).
pub fn parse_file_uri(uri: &str) -> (r: Option<String>)
    ensures
        match r {
            Some(p) => file_uri_path(uri@) == Some(p@),
            None => file_uri_path(uri@) is None,
        },
{
    let v = chars_of(uri);
    let scheme = chars_of("file://");
    proof {
        reveal_strlit("file://");
    }
    if !chars_starts_with(&v, &scheme) {
        return None;
    }
    let rest = chars_slice(&v, 7, v.len());
    let path = if rest.len() > 0 && rest[0] == '/' {
        rest
    } else {
        match find_slash(&rest) {
            Some(idx) => chars_slice(&rest, idx, rest.len()),
            None => rest,
        }
    };
    let ps = string_from_chars(&path);
    Some(url_decode(ps.as_str()))
}

/// Where a client's `initialize` parameters put the workspace: the first workspace
/// folder's URI, else the root URI (each only when it is a `file://` URI), else the
/// root path.
pub open spec fn workspace_path_of(
    folder_uri: Option<Seq<char>>,
    root_uri: Option<Seq<char>>,
    root_path: Option<Seq<char>>,
) -> Option<Seq<char>> {
    match folder_uri {
        Some(u) if file_uri_path(u) is Some => file_uri_path(u),
        _ => match root_uri {
            Some(u) if file_uri_path(u) is Some => file_uri_path(u),
            _ => root_path,
        },
    }
}

pub open spec fn opt_view(o: Option<&str>) -> Option<Seq<char>> {
    match o {
        Some(s) => Some(s@),
        None => None,
    }
}

/// Chooses the workspace path from the `initialize` parameters (see `workspace_path_of`);
/// `None` means the caller falls back to its current directory.
pub fn choose_workspace_path(
    folder_uri: Option<&str>,
    root_uri: Option<&str>,
    root_path: Option<&str>,
) -> (r: Option<String>)
    ensures
        match r {
            Some(p) => workspace_path_of(
                opt_view(folder_uri),
                opt_view(root_uri),
                opt_view(root_path),
            ) == Some(p@),
            None => workspace_path_of(
                opt_view(folder_uri),
                opt_view(root_uri),
                opt_view(root_path),
            ) is None,
        },
{
    if let Some(u) = folder_uri {
        if let Some(p) = parse_file_uri(u) {
            return Some(p);
        }
    }
    if let Some(u) = root_uri {
        if let Some(p) = parse_file_uri(u) {
            return Some(p);
        }
    }
    match root_path {
        Some(p) => Some(string_from_chars(&chars_of(p))),
        None => None,
    }
}

/// Traversal mode names; unknown names mean the neighbourhood.
pub open spec fn mode_of(s: Seq<char>) -> GraphContextMode {
    if s == "callers"@ {
        GraphContextMode::Callers
    } else if s == "callees"@ {
        GraphContextMode::Callees
    } else if s == "dependencies"@ {
        GraphContextMode::Dependencies
    } else if s == "dependents"@ {
        GraphContextMode::Dependents
    } else if s == "forward-slice"@ || s == "forward_slice"@ {
        GraphContextMode::ForwardSlice
    } else if s == "reverse-slice"@ || s == "reverse_slice"@ {
        GraphContextMode::ReverseSlice
    } else if s == "forward"@ {
        GraphContextMode::Forward
    } else if s == "reverse"@ {
        GraphContextMode::Reverse
    } else if s == "impact"@ {
        GraphContextMode::Impact
    } else {
        GraphContextMode::Neighborhood
    }
}

pub fn parse_graph_context_mode(mode_str: &str) -> (m: GraphContextMode)
    ensures
        m == mode_of(mode_str@),
{
    if str_eq(mode_str, "callers") {
        GraphContextMode::Callers
    } else if str_eq(mode_str, "callees") {
        GraphContextMode::Callees
    } else if str_eq(mode_str, "dependencies") {
        GraphContextMode::Dependencies
    } else if str_eq(mode_str, "dependents") {
        GraphContextMode::Dependents
    } else if str_eq(mode_str, "forward-slice") || str_eq(mode_str, "forward_slice") {
        GraphContextMode::ForwardSlice
    } else if str_eq(mode_str, "reverse-slice") || str_eq(mode_str, "reverse_slice") {
        GraphContextMode::ReverseSlice
    } else if str_eq(mode_str, "forward") {
        GraphContextMode::Forward
    } else if str_eq(mode_str, "reverse") {
        GraphContextMode::Reverse
    } else if str_eq(mode_str, "impact") {
        GraphContextMode::Impact
    } else {
        GraphContextMode::Neighborhood
    }
}

/// `char::to_uppercase`: the Unicode uppercase mapping of one character.
pub uninterp spec fn upper_of(c: char) -> Seq<char>;

/// Calls `char::to_uppercase`. Trusted: the result holds the characters of `upper_of(c)`.
#[verifier::external_body]
fn char_to_upper(c: char) -> (r: Vec<char>)
    ensures
        r@ == upper_of(c),
{
    c.to_uppercase().collect()
}

/// The text with its first character uppercased.
pub open spec fn capitalized(s: Seq<char>) -> Seq<char> {
    if s.len() == 0 {
        s
    } else {
        upper_of(s[0]) + s.drop_first()
    }
}

/// An edge kind by its exact name, or by its name with the first letter uppercased.
pub open spec fn edge_kind_loose(s: Seq<char>) -> Option<EdgeKind> {
    match edge_kind_parse(s) {
        Some(k) => Some(k),
        None => edge_kind_parse(capitalized(s)),
    }
}

/// The recognised edge kinds among `values`, in order; unrecognised names are dropped.
pub open spec fn edge_kinds_of(values: Seq<Seq<char>>) -> Seq<EdgeKind>
    decreases values.len(),
{
    if values.len() == 0 {
        Seq::empty()
    } else {
        let rest = edge_kinds_of(values.drop_last());
        match edge_kind_loose(values.last()) {
            Some(k) => rest.push(k),
            None => rest,
        }
    }
}

pub fn parse_edge_kinds(values: &[String]) -> (r: Vec<EdgeKind>)
    ensures
        r@ == edge_kinds_of(values@.map_values(|s: String| s@)),
{
    let mut r: Vec<EdgeKind> = Vec::new();
    let mut i: usize = 0;
    while i < values.len()
        invariant
            i <= values.len(),
            r@ == edge_kinds_of(values@.subrange(0, i as int).map_values(|s: String| s@)),
        decreases values.len() - i,
    {
        let k = &values[i];
        let parsed = match EdgeKind::from_str(k.as_str()) {
            Some(e) => Some(e),
            None => {
                let v = chars_of(k.as_str());
                if v.len() == 0 {
                    EdgeKind::from_chars(&v)
                } else {
                    let mut cap = char_to_upper(v[0]);
                    let tail = chars_slice(&v, 1, v.len());
                    extend_chars(&mut cap, &tail);
                    assert(tail@ =~= v@.drop_first());
                    EdgeKind::from_chars(&cap)
                }
            },
        };
        proof {
            let pre = values@.subrange(0, i + 1).map_values(|s: String| s@);
            assert(pre.drop_last() =~= values@.subrange(0, i as int).map_values(|s: String| s@));
            assert(pre.last() == k@);
        }
        if let Some(e) = parsed {
            r.push(e);
        }
        i = i + 1;
    }
    assert(values@.subrange(0, values.len() as int) =~= values@);
    r
}

/// A `depth` argument as it arrived: absent, a string, an unsigned or a signed
/// integer, or something else.
#[derive(Debug, Clone)]
pub enum DepthArg {
    Absent,
    Text(String),
    Unsigned(u64),
    Signed(i64),
    Other,
}

/// Absent or `"auto"` means automatic depth; an integer is a fixed depth; anything
/// else is refused.
pub open spec fn depth_from_arg(a: DepthArg) -> Result<DepthLimit, ()> {
    match a {
        DepthArg::Absent => Ok(DepthLimit::Auto),
        DepthArg::Text(s) => if s@ == "auto"@ {
            Ok(DepthLimit::Auto)
        } else {
            Err(())
        },
        DepthArg::Unsigned(d) => Ok(DepthLimit::Fixed(d as usize)),
        DepthArg::Signed(d) => Ok(DepthLimit::Fixed(d as usize)),
        DepthArg::Other => Err(()),
    }
}

/// Reads a `depth` argument (see `depth_from_arg`); the error text explains what is accepted.
pub fn depth_or_auto(arg: &DepthArg) -> (r: Result<DepthLimit, String>)
    ensures
        match r {
            Ok(d) => depth_from_arg(*arg) == Ok::<DepthLimit, ()>(d),
            Err(m) => depth_from_arg(*arg) is Err && m@ == "depth must be a non-negative integer or \"auto\""@,
        },
{
    match arg {
        DepthArg::Absent => Ok(DepthLimit::Auto),
        DepthArg::Text(s) => if str_eq(s.as_str(), "auto") {
            Ok(DepthLimit::Auto)
        } else {
            Err(String::from_str("depth must be a non-negative integer or \"auto\""))
        },
        DepthArg::Unsigned(d) => Ok(DepthLimit::Fixed(#[verifier::truncate] (*d as usize))),
        DepthArg::Signed(d) => Ok(DepthLimit::Fixed(#[verifier::truncate] (*d as usize))),
        DepthArg::Other => Err(String::from_str("depth must be a non-negative integer or \"auto\"")),
    }
}

} // verus!
