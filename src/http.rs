//! Conversion of HTTP match predicates and filters into the route model.
use vstd::prelude::*;
use crate::checks::{first_error, flat, lemma_first_error_step, lemma_whole_suffix};
use crate::gateway;
use crate::model::{
    HeaderMatch, HeaderModifierFilter, HostMatch, PathMatch, PathModifier, QueryParamMatch,
    RequestRedirectFilter, RouteError,
};
use crate::text::{
    begins_with, header_value, is_header_value, is_scheme, is_token, scheme, starts_with_char,
    token,
};

verus! {

/// What is wrong with a path match, if anything: exact and prefix paths must be absolute.
pub open spec fn path_check(p: gateway::HttpPathMatch) -> Option<RouteError> {
    match p {
        gateway::HttpPathMatch::Exact { value } => if begins_with(value@, '/') { None } else { Some(RouteError::RelativePath) },
        gateway::HttpPathMatch::PathPrefix { value } => if begins_with(value@, '/') { None } else { Some(RouteError::RelativePath) },
        gateway::HttpPathMatch::RegularExpression { .. } => None,
    }
}

/// The path match is the model of the resource's path match.
pub open spec fn path_converted(p: gateway::HttpPathMatch, m: PathMatch) -> bool {
    match (p, m) {
        (gateway::HttpPathMatch::Exact { value }, PathMatch::Exact(v)) => v@ == value@,
        (gateway::HttpPathMatch::PathPrefix { value }, PathMatch::Prefix(v)) => v@ == value@,
        (gateway::HttpPathMatch::RegularExpression { value }, PathMatch::Regex(v)) => v@ == value@,
        _ => false,
    }
}

/// Converts a path match.
pub fn path_match(p: &gateway::HttpPathMatch) -> (r: Result<PathMatch, RouteError>)
    ensures
        match r {
            Ok(m) => path_check(*p) is None && path_converted(*p, m),
            Err(e) => path_check(*p) == Some(e),
        },
{
    match p {
        gateway::HttpPathMatch::Exact { value } => {
            if starts_with_char(value.as_str(), '/') {
                Ok(PathMatch::Exact(value.clone()))
            } else {
                Err(RouteError::RelativePath)
            }
        },
        gateway::HttpPathMatch::PathPrefix { value } => {
            if starts_with_char(value.as_str(), '/') {
                Ok(PathMatch::Prefix(value.clone()))
            } else {
                Err(RouteError::RelativePath)
            }
        },
        gateway::HttpPathMatch::RegularExpression { value } => Ok(PathMatch::Regex(value.clone())),
    }
}

/// What is wrong with a host name pattern, if anything: it is a non-empty
/// name, or `*.` followed by a non-empty domain.
pub open spec fn host_check(h: Seq<char>) -> Option<RouteError> {
    if begins_with(h, '*') {
        if h.len() > 2 && h[1] == '.' { None } else { Some(RouteError::InvalidHostname) }
    } else {
        if h.len() > 0 { None } else { Some(RouteError::InvalidHostname) }
    }
}

/// The host match is the model of the host name pattern.
pub open spec fn host_converted(h: Seq<char>, m: HostMatch) -> bool {
    match m {
        HostMatch::Exact(e) => !begins_with(h, '*') && e@ == h,
        HostMatch::Suffix(s) => begins_with(h, '*') && s@ == h.subrange(2, h.len() as int),
    }
}

/// Converts a host name pattern.
pub fn host_match(h: &String) -> (r: Result<HostMatch, RouteError>)
    ensures
        match r {
            Ok(m) => host_check(h@) is None && host_converted(h@, m),
            Err(e) => host_check(h@) == Some(e),
        },
{
    let n = h.as_str().unicode_len();
    if starts_with_char(h.as_str(), '*') {
        if n > 2 && h.as_str().get_char(1) == '.' {
            let rest = h.as_str().substring_char(2, n);
            Ok(HostMatch::Suffix(rest.to_owned()))
        } else {
            Err(RouteError::InvalidHostname)
        }
    } else if n > 0 {
        Ok(HostMatch::Exact(h.clone()))
    } else {
        Err(RouteError::InvalidHostname)
    }
}

/// What is wrong with a header match, if anything: a header name is a token,
/// an exact value is a valid header value.
pub open spec fn header_check(h: gateway::HttpHeaderMatch) -> Option<RouteError> {
    match h {
        gateway::HttpHeaderMatch::Exact { name, value } => if !is_token(name@) {
            Some(RouteError::InvalidHeaderName)
        } else if !is_header_value(value@) {
            Some(RouteError::InvalidHeaderValue)
        } else {
            None
        },
        gateway::HttpHeaderMatch::RegularExpression { name, .. } => if !is_token(name@) {
            Some(RouteError::InvalidHeaderName)
        } else {
            None
        },
    }
}

pub open spec fn header_converted(h: gateway::HttpHeaderMatch, m: HeaderMatch) -> bool {
    match (h, m) {
        (gateway::HttpHeaderMatch::Exact { name, value }, HeaderMatch::Exact(n, v)) => n@ == name@ && v@ == value@,
        (gateway::HttpHeaderMatch::RegularExpression { name, value }, HeaderMatch::Regex(n, v)) => n@ == name@ && v@ == value@,
        _ => false,
    }
}

/// Converts a header match.
pub fn header_match(h: &gateway::HttpHeaderMatch) -> (r: Result<HeaderMatch, RouteError>)
    ensures
        match r {
            Ok(m) => header_check(*h) is None && header_converted(*h, m),
            Err(e) => header_check(*h) == Some(e),
        },
{
    match h {
        gateway::HttpHeaderMatch::Exact { name, value } => {
            if !token(name.as_str()) {
                Err(RouteError::InvalidHeaderName)
            } else if !header_value(value.as_str()) {
                Err(RouteError::InvalidHeaderValue)
            } else {
                Ok(HeaderMatch::Exact(name.clone(), value.clone()))
            }
        },
        gateway::HttpHeaderMatch::RegularExpression { name, value } => {
            if !token(name.as_str()) {
                Err(RouteError::InvalidHeaderName)
            } else {
                Ok(HeaderMatch::Regex(name.clone(), value.clone()))
            }
        },
    }
}

pub open spec fn query_param_converted(q: gateway::HttpQueryParamMatch, m: QueryParamMatch) -> bool {
    match (q, m) {
        (gateway::HttpQueryParamMatch::Exact { name, value }, QueryParamMatch::Exact(n, v)) => n@ == name@ && v@ == value@,
        (gateway::HttpQueryParamMatch::RegularExpression { name, value }, QueryParamMatch::Regex(n, v)) => n@ == name@ && v@ == value@,
        _ => false,
    }
}

/// Converts a query parameter match; every one is accepted.
pub fn query_param_match(q: &gateway::HttpQueryParamMatch) -> (r: QueryParamMatch)
    ensures
        query_param_converted(*q, r),
{
    match q {
        gateway::HttpQueryParamMatch::Exact { name, value } => QueryParamMatch::Exact(name.clone(), value.clone()),
        gateway::HttpQueryParamMatch::RegularExpression { name, value } => QueryParamMatch::Regex(name.clone(), value.clone()),
    }
}

/// Converts a list of query parameter matches.
pub fn query_param_matches(qs: &Option<Vec<gateway::HttpQueryParamMatch>>) -> (r: Vec<QueryParamMatch>)
    ensures
        r@.len() == flat(*qs).len(),
        forall|i: int| 0 <= i < r@.len() ==> query_param_converted(flat(*qs)[i], #[trigger] r@[i]),
{
    let mut out: Vec<QueryParamMatch> = Vec::new();
    match qs {
        Some(items) => {
            let mut i: usize = 0;
            while i < items.len()
                invariant
                    items@ == flat(*qs),
                    i <= items@.len(),
                    out@.len() == i,
                    forall|j: int| 0 <= j < i ==> query_param_converted(items@[j], #[trigger] out@[j]),
                decreases items@.len() - i,
            {
                out.push(query_param_match(&items[i]));
                i = i + 1;
            }
        },
        None => {},
    }
    out
}

/// What is wrong with a request method, if anything: it is an HTTP token.
pub open spec fn method_check(m: Seq<char>) -> Option<RouteError> {
    if is_token(m) { None } else { Some(RouteError::InvalidMethod) }
}

/// Converts a request method.
pub fn method(m: &String) -> (r: Result<String, RouteError>)
    ensures
        match r {
            Ok(v) => method_check(m@) is None && v@ == m@,
            Err(e) => method_check(m@) == Some(e),
        },
{
    if token(m.as_str()) {
        Ok(m.clone())
    } else {
        Err(RouteError::InvalidMethod)
    }
}

/// What is wrong with a header to add or set, if anything.
pub open spec fn entry_check(h: gateway::HttpHeader) -> Option<RouteError> {
    if !is_token(h.name@) {
        Some(RouteError::InvalidHeaderName)
    } else if !is_header_value(h.value@) {
        Some(RouteError::InvalidHeaderValue)
    } else {
        None
    }
}

/// The check applied to each item of the list.
pub open spec fn entry_check_fn() -> spec_fn(gateway::HttpHeader) -> Option<RouteError> {
    |h: gateway::HttpHeader| entry_check(h)
}

/// The error of the first malformed item of the list, if any.
pub open spec fn entries_error(s: Seq<gateway::HttpHeader>) -> Option<RouteError> {
    first_error(s, entry_check_fn())
}

/// Each item of the result is the model of the item at its place in the list.
pub open spec fn entries_converted(s: Seq<gateway::HttpHeader>, v: Seq<(String, String)>) -> bool {
    v.len() == s.len() && forall|i: int| 0 <= i < v.len() ==> (#[trigger] v[i]).0@ == s[i].name@ && v[i].1@ == s[i].value@
}

fn header_entries(o: &Option<Vec<gateway::HttpHeader>>) -> (r: Result<Vec<(String, String)>, RouteError>)
    ensures
        match r {
            Ok(v) => entries_error(flat(*o)) is None && entries_converted(flat(*o), v@),
            Err(e) => entries_error(flat(*o)) == Some(e),
        },
{
    let mut out: Vec<(String, String)> = Vec::new();
    match o {
        Some(items) => {
            let ghost s = items@;
            let ghost check = entry_check_fn();
            proof { lemma_whole_suffix(s); }
            let mut i: usize = 0;
            while i < items.len()
                invariant
                    items@ == s,
                    s == flat(*o),
                    check == entry_check_fn(),
                    i <= s.len(),
                    out@.len() == i,
                    forall|j: int| 0 <= j < i ==> (#[trigger] out@[j]).0@ == s[j].name@ && out@[j].1@ == s[j].value@,
                    entries_error(s) == first_error(s.subrange(i as int, s.len() as int), check),
                decreases s.len() - i,
            {
                proof {
                    lemma_first_error_step(s, i as int, check);
                    assert(check(s[i as int]) == entry_check(s[i as int]));
                }
                let h = &items[i];
                if !token(h.name.as_str()) {
                    return Err(RouteError::InvalidHeaderName);
                }
                if !header_value(h.value.as_str()) {
                    return Err(RouteError::InvalidHeaderValue);
                }
                out.push((h.name.clone(), h.value.clone()));
                i = i + 1;
            }
        },
        None => {},
    }
    Ok(out)
}

/// The check applied to each item of the list.
pub open spec fn name_check_fn() -> spec_fn(String) -> Option<RouteError> {
    |n: String| if is_token(n@) { None } else { Some(RouteError::InvalidHeaderName) }
}

/// The error of the first malformed item of the list, if any.
pub open spec fn names_error(s: Seq<String>) -> Option<RouteError> {
    first_error(s, name_check_fn())
}

fn header_names(o: &Option<Vec<String>>) -> (r: Result<Vec<String>, RouteError>)
    ensures
        match r {
            Ok(v) => names_error(flat(*o)) is None && v@.len() == flat(*o).len()
                && forall|i: int| 0 <= i < v@.len() ==> (#[trigger] v@[i])@ == flat(*o)[i]@,
            Err(e) => names_error(flat(*o)) == Some(e),
        },
{
    let mut out: Vec<String> = Vec::new();
    match o {
        Some(items) => {
            let ghost s = items@;
            let ghost check = name_check_fn();
            proof { lemma_whole_suffix(s); }
            let mut i: usize = 0;
            while i < items.len()
                invariant
                    items@ == s,
                    s == flat(*o),
                    check == name_check_fn(),
                    i <= s.len(),
                    out@.len() == i,
                    forall|j: int| 0 <= j < i ==> (#[trigger] out@[j])@ == s[j]@,
                    names_error(s) == first_error(s.subrange(i as int, s.len() as int), check),
                decreases s.len() - i,
            {
                proof {
                    lemma_first_error_step(s, i as int, check);
                }
                if !token(items[i].as_str()) {
                    return Err(RouteError::InvalidHeaderName);
                }
                out.push(items[i].clone());
                i = i + 1;
            }
        },
        None => {},
    }
    Ok(out)
}

/// What is wrong with a header modifier, if anything: the headers to set, then
/// those to add, then the names to remove, each in order.
pub open spec fn header_modifier_check(f: gateway::HttpRequestHeaderFilter) -> Option<RouteError> {
    if entries_error(flat(f.set)) is Some {
        entries_error(flat(f.set))
    } else if entries_error(flat(f.add)) is Some {
        entries_error(flat(f.add))
    } else {
        names_error(flat(f.remove))
    }
}

pub open spec fn header_modifier_converted(f: gateway::HttpRequestHeaderFilter, m: HeaderModifierFilter) -> bool {
    &&& entries_converted(flat(f.set), m.set@)
    &&& entries_converted(flat(f.add), m.add@)
    &&& m.remove@.len() == flat(f.remove).len()
    &&& forall|i: int| 0 <= i < m.remove@.len() ==> (#[trigger] m.remove@[i])@ == flat(f.remove)[i]@
}

/// Converts a header modifier filter.
pub fn header_modifier(f: &gateway::HttpRequestHeaderFilter) -> (r: Result<HeaderModifierFilter, RouteError>)
    ensures
        match r {
            Ok(m) => header_modifier_check(*f) is None && header_modifier_converted(*f, m),
            Err(e) => header_modifier_check(*f) == Some(e),
        },
{
    let set = match header_entries(&f.set) {
        Ok(v) => v,
        Err(e) => return Err(e),
    };
    let add = match header_entries(&f.add) {
        Ok(v) => v,
        Err(e) => return Err(e),
    };
    let remove = match header_names(&f.remove) {
        Ok(v) => v,
        Err(e) => return Err(e),
    };
    Ok(HeaderModifierFilter { add, set, remove })
}

/// What is wrong with a redirect, if anything: its scheme must be a URI scheme
/// and its status code lie in 100..=999.
pub open spec fn redirect_check(f: gateway::HttpRequestRedirectFilter) -> Option<RouteError> {
    if f.scheme is Some && !is_scheme(f.scheme->0@) {
        Some(RouteError::InvalidScheme)
    } else if f.status_code is Some && !(100 <= f.status_code->0 <= 999) {
        Some(RouteError::InvalidStatusCode)
    } else {
        None
    }
}

pub open spec fn path_modifier_converted(p: gateway::HttpPathModifier, m: PathModifier) -> bool {
    match (p, m) {
        (gateway::HttpPathModifier::ReplaceFullPath { replace_full_path }, PathModifier::Full(v)) => v@ == replace_full_path@,
        (gateway::HttpPathModifier::ReplacePrefixMatch { replace_prefix_match }, PathModifier::Prefix(v)) => v@ == replace_prefix_match@,
        _ => false,
    }
}

pub open spec fn opt_text_eq(a: Option<String>, b: Option<String>) -> bool {
    match (a, b) {
        (Some(x), Some(y)) => x@ == y@,
        (None, None) => true,
        _ => false,
    }
}

/// The redirect is the model of the resource's redirect; a zero port means none.
pub open spec fn redirect_converted(f: gateway::HttpRequestRedirectFilter, m: RequestRedirectFilter) -> bool {
    &&& opt_text_eq(m.scheme, f.scheme)
    &&& opt_text_eq(m.host, f.hostname)
    &&& match (f.path, m.path) {
        (Some(p), Some(q)) => path_modifier_converted(p, q),
        (None, None) => true,
        _ => false,
    }
    &&& m.port == (if f.port == Some(0u16) { None } else { f.port })
    &&& m.status == f.status_code
}

pub fn opt_text(o: &Option<String>) -> (r: Option<String>)
    ensures
        opt_text_eq(r, *o),
{
    match o {
        Some(s) => Some(s.clone()),
        None => None,
    }
}

/// Converts a redirect filter.
pub fn req_redirect(f: &gateway::HttpRequestRedirectFilter) -> (r: Result<RequestRedirectFilter, RouteError>)
    ensures
        match r {
            Ok(m) => redirect_check(*f) is None && redirect_converted(*f, m),
            Err(e) => redirect_check(*f) == Some(e),
        },
{
    match &f.scheme {
        Some(s) => {
            if !scheme(s.as_str()) {
                return Err(RouteError::InvalidScheme);
            }
        },
        None => {},
    }
    match f.status_code {
        Some(c) => {
            if !(100 <= c && c <= 999) {
                return Err(RouteError::InvalidStatusCode);
            }
        },
        None => {},
    }
    let path = match &f.path {
        Some(gateway::HttpPathModifier::ReplaceFullPath { replace_full_path }) => Some(PathModifier::Full(replace_full_path.clone())),
        Some(gateway::HttpPathModifier::ReplacePrefixMatch { replace_prefix_match }) => Some(PathModifier::Prefix(replace_prefix_match.clone())),
        None => None,
    };
    let port = match f.port {
        Some(p) => if p == 0 { None } else { Some(p) },
        None => None,
    };
    Ok(RequestRedirectFilter {
        scheme: opt_text(&f.scheme),
        host: opt_text(&f.hostname),
        path,
        port,
        status: f.status_code,
    })
}

pub open spec fn hostname_check(h: String) -> Option<RouteError> {
    host_check(h@)
}

pub open spec fn hostname_converted(h: String, m: HostMatch) -> bool {
    host_converted(h@, m)
}

/// The check applied to each item of the list.
pub open spec fn hostnames_check_fn() -> spec_fn(String) -> Option<RouteError> {
    |x: String| hostname_check(x)
}

/// The error of the first malformed item of the list, if any.
pub open spec fn hostnames_error(s: Seq<String>) -> Option<RouteError> {
    first_error(s, hostnames_check_fn())
}

/// Each item of the result is the model of the item at its place in the list.
pub open spec fn hostnames_converted(s: Seq<String>, v: Seq<HostMatch>) -> bool {
    v.len() == s.len() && forall|i: int| 0 <= i < v.len() ==> hostname_converted(s[i], #[trigger] v[i])
}

pub fn host_matches(o: &Option<Vec<String>>) -> (r: Result<Vec<HostMatch>, RouteError>)
    ensures
        match r {
            Ok(v) => hostnames_error(flat(*o)) is None && hostnames_converted(flat(*o), v@),
            Err(e) => hostnames_error(flat(*o)) == Some(e),
        },
{
    let mut out: Vec<HostMatch> = Vec::new();
    match o {
        Some(items) => {
            let ghost s = items@;
            let ghost check = hostnames_check_fn();
            proof { lemma_whole_suffix(s); }
            let mut i: usize = 0;
            while i < items.len()
                invariant
                    items@ == s,
                    s == flat(*o),
                    check == hostnames_check_fn(),
                    i <= s.len(),
                    out@.len() == i,
                    forall|j: int| 0 <= j < i ==> hostname_converted(s[j], #[trigger] out@[j]),
                    hostnames_error(s) == first_error(s.subrange(i as int, s.len() as int), check),
                decreases s.len() - i,
            {
                proof {
                    lemma_first_error_step(s, i as int, check);
                    assert(check(s[i as int]) == hostname_check(s[i as int]));
                }
                match host_match(&items[i]) {
                    Ok(m) => out.push(m),
                    Err(e) => return Err(e),
                }
                i = i + 1;
            }
        },
        None => {},
    }
    Ok(out)
}

/// The check applied to each item of the list.
pub open spec fn headers_check_fn() -> spec_fn(gateway::HttpHeaderMatch) -> Option<RouteError> {
    |x: gateway::HttpHeaderMatch| header_check(x)
}

/// The error of the first malformed item of the list, if any.
pub open spec fn headers_error(s: Seq<gateway::HttpHeaderMatch>) -> Option<RouteError> {
    first_error(s, headers_check_fn())
}

/// Each item of the result is the model of the item at its place in the list.
pub open spec fn headers_converted(s: Seq<gateway::HttpHeaderMatch>, v: Seq<HeaderMatch>) -> bool {
    v.len() == s.len() && forall|i: int| 0 <= i < v.len() ==> header_converted(s[i], #[trigger] v[i])
}

pub fn header_matches(o: &Option<Vec<gateway::HttpHeaderMatch>>) -> (r: Result<Vec<HeaderMatch>, RouteError>)
    ensures
        match r {
            Ok(v) => headers_error(flat(*o)) is None && headers_converted(flat(*o), v@),
            Err(e) => headers_error(flat(*o)) == Some(e),
        },
{
    let mut out: Vec<HeaderMatch> = Vec::new();
    match o {
        Some(items) => {
            let ghost s = items@;
            let ghost check = headers_check_fn();
            proof { lemma_whole_suffix(s); }
            let mut i: usize = 0;
            while i < items.len()
                invariant
                    items@ == s,
                    s == flat(*o),
                    check == headers_check_fn(),
                    i <= s.len(),
                    out@.len() == i,
                    forall|j: int| 0 <= j < i ==> header_converted(s[j], #[trigger] out@[j]),
                    headers_error(s) == first_error(s.subrange(i as int, s.len() as int), check),
                decreases s.len() - i,
            {
                proof {
                    lemma_first_error_step(s, i as int, check);
                    assert(check(s[i as int]) == header_check(s[i as int]));
                }
                match header_match(&items[i]) {
                    Ok(m) => out.push(m),
                    Err(e) => return Err(e),
                }
                i = i + 1;
            }
        },
        None => {},
    }
    Ok(out)
}

} // verus!
