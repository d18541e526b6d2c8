//! The member decoder: from a node's raw byte payload to a
//! [`ServersetMember`], or a [`DecodeError`].  Pure, no I/O, no shared
//! state.  Each scanning function is proved to return exactly what the
//! corresponding grammar function of [`crate::json`] describes.

use vstd::prelude::*;
use vstd::utf8::{valid_utf8, decode_utf8, encode_scalar, is_scalar};
use crate::json::{
    skip_ws, unescape, hex_val, hex4, parse_u_escape, parse_string_body, parse_string_chars,
    parse_port, parse_digits, skip_digits, skip_exponent, skip_fraction, skip_number, skip_value,
    skip_object_items, skip_array_items, parse_endpoint_fields, parse_endpoint_more,
    parse_endpoint, parse_roles_fields, parse_roles_more, parse_roles, parse_member_fields,
    parse_member_more, spec_decode,
};
use crate::record::{
    ServiceEndpoint, ServersetMember, EndpointModel, MemberModel, DecodeError, assoc_view,
    unique_keys, lemma_assoc_view_contains, lemma_assoc_view_push,
};

verus! {

/// Relies on `core::str::from_utf8`: it succeeds exactly on valid UTF-8.
#[verifier::external_body]
fn utf8_valid(v: &[u8]) -> (b: bool)
    ensures
        b == valid_utf8(v@),
{
    core::str::from_utf8(v).is_ok()
}

/// Relies on `String::from_utf8`: it succeeds exactly on valid UTF-8, and
/// the string it returns is the character sequence the bytes encode.
#[verifier::external_body]
fn vec_to_string(v: Vec<u8>) -> (r: Option<String>)
    ensures
        (match r {
            Some(s) => valid_utf8(v@) && s@ == decode_utf8(v@),
            None => !valid_utf8(v@),
        }),
{
    String::from_utf8(v).ok()
}

/// The view of an optional string field accumulator.
pub open spec fn view_opt_string(o: Option<String>) -> Option<Seq<char>> {
    match o {
        Some(s) => Some(s@),
        None => None,
    }
}

/// The view of an optional endpoint field accumulator.
pub open spec fn view_opt_endpoint(o: Option<ServiceEndpoint>) -> Option<EndpointModel> {
    match o {
        Some(e) => Some(e@),
        None => None,
    }
}

/// The view of an optional role-map field accumulator.
pub open spec fn view_opt_roles(
    o: Option<Vec<(String, ServiceEndpoint)>>,
) -> Option<Map<Seq<char>, EndpointModel>> {
    match o {
        Some(v) => Some(assoc_view(v@)),
        None => None,
    }
}

/// The first position at or after `i` that does not hold whitespace.
fn scan_ws(s: &[u8], i: usize) -> (j: usize)
    requires
        i <= s@.len(),
    ensures
        j == skip_ws(s@, i as int),
        i <= j <= s@.len(),
{
    let mut k = i;
    while k < s.len() && (s[k] == 0x20 || s[k] == 0x09 || s[k] == 0x0a || s[k] == 0x0d)
        invariant
            i <= k <= s@.len(),
            skip_ws(s@, i as int) == skip_ws(s@, k as int),
        decreases s@.len() - k,
    {
        k = k + 1;
    }
    k
}

/// The UTF-8 encoding of one scalar value.
fn encode_scalar_bytes(scalar: u32) -> (v: Vec<u8>)
    requires
        is_scalar(scalar),
    ensures
        v@ == encode_scalar(scalar),
{
    let mut v: Vec<u8> = Vec::new();
    if scalar <= 0x7F {
        v.push((scalar & 0x7F) as u8);
    } else if scalar <= 0x7FF {
        v.push(0xC0u8 | ((scalar >> 6) & 0x1F) as u8);
        v.push(0x80u8 | (scalar & 0x3F) as u8);
    } else if scalar <= 0xFFFF {
        v.push(0xE0u8 | ((scalar >> 12) & 0x0F) as u8);
        v.push(0x80u8 | ((scalar >> 6) & 0x3F) as u8);
        v.push(0x80u8 | (scalar & 0x3F) as u8);
    } else {
        v.push(0xF0u8 | ((scalar >> 18) & 0x7) as u8);
        v.push(0x80u8 | ((scalar >> 12) & 0x3F) as u8);
        v.push(0x80u8 | ((scalar >> 6) & 0x3F) as u8);
        v.push(0x80u8 | (scalar & 0x3F) as u8);
    }
    assert(v@ =~= encode_scalar(scalar));
    v
}

/// The value of one hexadecimal digit.
fn hex_digit(b: u8) -> (r: Option<u32>)
    ensures
        r == hex_val(b),
{
    if 0x30 <= b && b <= 0x39 {
        Some((b - 0x30) as u32)
    } else if 0x61 <= b && b <= 0x66 {
        Some((b - 0x61 + 10) as u32)
    } else if 0x41 <= b && b <= 0x46 {
        Some((b - 0x41 + 10) as u32)
    } else {
        None
    }
}

/// The four-digit hexadecimal code unit at `i`.
fn scan_hex4(s: &[u8], i: usize) -> (r: Option<u32>)
    requires
        i <= s@.len(),
    ensures
        (match r {
            Some(v) => hex4(s@, i as int) == Some(v) && i + 4 <= s@.len() && v <= 0xFFFF,
            None => hex4(s@, i as int) is None,
        }),
{
    if s.len() >= 4 && i <= s.len() - 4 {
        match (hex_digit(s[i]), hex_digit(s[i + 1]), hex_digit(s[i + 2]), hex_digit(s[i + 3])) {
            (Some(a), Some(b), Some(c), Some(d)) => {
                assert(a <= 15 && b <= 15 && c <= 15 && d <= 15);
                Some(a * 0x1000 + b * 0x100 + c * 0x10 + d)
            },
            _ => None,
        }
    } else {
        None
    }
}

/// One `\u` escape at `i` (the backslash), as the UTF-8 bytes of the scalar
/// it stands for.
fn scan_u_escape(s: &[u8], i: usize) -> (r: Option<(Vec<u8>, usize)>)
    requires
        i + 1 < s@.len(),
    ensures
        (match r {
            Some((v, j)) => parse_u_escape(s@, i as int) == Some((v@, j as int)) && i < j
                <= s@.len(),
            None => parse_u_escape(s@, i as int) is None,
        }),
{
    let slen = s.len();
    assert(i + 2 <= slen);
    match scan_hex4(s, i + 2) {
        None => None,
        Some(c1) => {
            if c1 < 0xD800 || c1 > 0xDFFF {
                Some((encode_scalar_bytes(c1), i + 6))
            } else if c1 <= 0xDBFF {
                if s.len() >= 8 && i <= s.len() - 8 && s[i + 6] == 0x5c && s[i + 7] == 0x75 {
                    match scan_hex4(s, i + 8) {
                        None => None,
                        Some(c2) => {
                            if 0xDC00 <= c2 && c2 <= 0xDFFF {
                                let scalar: u32 = 0x10000 + (c1 - 0xD800) * 0x400 + (c2 - 0xDC00);
                                Some((encode_scalar_bytes(scalar), i + 12))
                            } else {
                                None
                            }
                        },
                    }
                } else {
                    None
                }
            } else {
                None
            }
        },
    }
}

/// One string's unescaped content, starting just after the opening quote.
fn scan_string_body(s: &[u8], i: usize) -> (r: Option<(Vec<u8>, usize)>)
    requires
        i <= s@.len(),
    ensures
        (match r {
            Some((v, j)) => parse_string_body(s@, i as int) == Some((v@, j as int)) && i < j
                <= s@.len(),
            None => parse_string_body(s@, i as int) is None,
        }),
    decreases s@.len() - i,
{
    if i >= s.len() {
        None
    } else {
        let b = s[i];
        if b == 0x22 {
            Some((Vec::new(), i + 1))
        } else if b == 0x5c {
            if i + 1 < s.len() {
                let e = s[i + 1];
                if e == 0x75 {
                    return match scan_u_escape(s, i) {
                        None => None,
                        Some((enc, j)) => {
                            match scan_string_body(s, j) {
                                Some((mut rest, j2)) => {
                                    let mut out = enc;
                                    out.append(&mut rest);
                                    Some((out, j2))
                                },
                                None => None,
                            }
                        },
                    };
                }
                let u: u8 = if e == 0x22 {
                    0x22
                } else if e == 0x5c {
                    0x5c
                } else if e == 0x2f {
                    0x2f
                } else if e == 0x62 {
                    0x08
                } else if e == 0x66 {
                    0x0c
                } else if e == 0x6e {
                    0x0a
                } else if e == 0x72 {
                    0x0d
                } else if e == 0x74 {
                    0x09
                } else {
                    return None;
                };
                assert(unescape(e) == Some(u));
                match scan_string_body(s, i + 2) {
                    Some((mut rest, j)) => {
                        rest.insert(0, u);
                        assert(rest@ =~= seq![u] + rest@.drop_first());
                        Some((rest, j))
                    },
                    None => None,
                }
            } else {
                None
            }
        } else if b < 0x20 {
            None
        } else {
            match scan_string_body(s, i + 1) {
                Some((mut rest, j)) => {
                    rest.insert(0, b);
                    assert(rest@ =~= seq![b] + rest@.drop_first());
                    Some((rest, j))
                },
                None => None,
            }
        }
    }
}

/// One quoted string at `i`, decoded to a [`String`].
fn scan_string(s: &[u8], i: usize) -> (r: Option<(String, usize)>)
    requires
        i <= s@.len(),
    ensures
        (match r {
            Some((v, j)) => parse_string_chars(s@, i as int) == Some((v@, j as int)) && i < j
                <= s@.len(),
            None => parse_string_chars(s@, i as int) is None,
        }),
{
    if i < s.len() && s[i] == 0x22 {
        match scan_string_body(s, i + 1) {
            Some((content, j)) => {
                match vec_to_string(content) {
                    Some(st) => Some((st, j)),
                    None => None,
                }
            },
            None => None,
        }
    } else {
        None
    }
}

/// One port number at `i`.
#[verifier::loop_isolation(false)]
fn scan_port(s: &[u8], i: usize) -> (r: Option<(u16, usize)>)
    requires
        i <= s@.len(),
    ensures
        (match r {
            Some((p, j)) => parse_port(s@, i as int) == Some((p, j as int)) && i < j <= s@.len(),
            None => parse_port(s@, i as int) is None,
        }),
{
    if !(i < s.len() && 0x30 <= s[i] && s[i] <= 0x39) {
        return None;
    }
    if s[i] == 0x30 {
        if i + 1 < s.len() && 0x30 <= s[i + 1] && s[i + 1] <= 0x39 {
            return None;
        }
        return Some((0u16, i + 1));
    }
    let mut acc: u32 = 0;
    let mut k = i;
    loop
        invariant
            i <= k <= s@.len(),
            acc <= 0xffff,
            parse_digits(s@, i as int, 0) == parse_digits(s@, k as int, acc as int),
        decreases s@.len() - k,
    {
        if k < s.len() && 0x30 <= s[k] && s[k] <= 0x39 {
            let v: u32 = acc * 10 + (s[k] - 0x30) as u32;
            if v > 0xffff {
                return None;
            }
            acc = v;
            k = k + 1;
        } else {
            return Some((acc as u16, k));
        }
    }
}

/// The first position at or after `i` that does not hold a decimal digit.
#[verifier::loop_isolation(false)]
fn scan_digits(s: &[u8], i: usize) -> (j: usize)
    requires
        i <= s@.len(),
    ensures
        j == skip_digits(s@, i as int),
        i <= j <= s@.len(),
        j == i ==> !(i < s@.len() && 0x30 <= s@[i as int] <= 0x39),
{
    let mut k = i;
    while k < s.len() && 0x30 <= s[k] && s[k] <= 0x39
        invariant
            i <= k <= s@.len(),
            skip_digits(s@, i as int) == skip_digits(s@, k as int),
        decreases s@.len() - k,
    {
        k = k + 1;
    }
    k
}

/// The position one past a number's exponent part at `b`, if any.
fn scan_exponent(s: &[u8], b: usize) -> (r: Option<usize>)
    requires
        b <= s@.len(),
    ensures
        (match r {
            Some(j) => skip_exponent(s@, b as int) == Some(j as int) && b <= j <= s@.len(),
            None => skip_exponent(s@, b as int) is None,
        }),
{
    if b < s.len() && (s[b] == 0x65 || s[b] == 0x45) {
        let c = if b + 1 < s.len() && (s[b + 1] == 0x2b || s[b + 1] == 0x2d) {
            b + 2
        } else {
            b + 1
        };
        if c < s.len() && 0x30 <= s[c] && s[c] <= 0x39 {
            Some(scan_digits(s, c))
        } else {
            None
        }
    } else {
        Some(b)
    }
}

/// The position one past a number's fraction and exponent parts at `b`, if
/// any.
fn scan_fraction(s: &[u8], b: usize) -> (r: Option<usize>)
    requires
        b <= s@.len(),
    ensures
        (match r {
            Some(j) => skip_fraction(s@, b as int) == Some(j as int) && b <= j <= s@.len(),
            None => skip_fraction(s@, b as int) is None,
        }),
{
    if b < s.len() && s[b] == 0x2e {
        if b + 1 < s.len() && 0x30 <= s[b + 1] && s[b + 1] <= 0x39 {
            scan_exponent(s, scan_digits(s, b + 1))
        } else {
            None
        }
    } else {
        scan_exponent(s, b)
    }
}

/// One JSON number at `i`, skipped.
fn scan_number(s: &[u8], i: usize) -> (r: Option<usize>)
    requires
        i <= s@.len(),
    ensures
        (match r {
            Some(j) => skip_number(s@, i as int) == Some(j as int) && i < j <= s@.len(),
            None => skip_number(s@, i as int) is None,
        }),
{
    let a = if i < s.len() && s[i] == 0x2d {
        i + 1
    } else {
        i
    };
    if a < s.len() && 0x30 <= s[a] && s[a] <= 0x39 {
        if s[a] == 0x30 {
            if a + 1 < s.len() && 0x30 <= s[a + 1] && s[a + 1] <= 0x39 {
                None
            } else {
                scan_fraction(s, a + 1)
            }
        } else {
            let d = scan_digits(s, a);
            assert(d > a);
            scan_fraction(s, d)
        }
    } else {
        None
    }
}

/// Any JSON value at `i`, skipped.
fn scan_skip_value(s: &[u8], i: usize) -> (r: Option<usize>)
    requires
        i <= s@.len(),
    ensures
        (match r {
            Some(j) => skip_value(s@, i as int) == Some(j as int) && i < j <= s@.len(),
            None => skip_value(s@, i as int) is None,
        }),
    decreases s@.len() - i, 2int,
{
    if i < s.len() {
        let b = s[i];
        if b == 0x22 {
            match scan_string_body(s, i + 1) {
                Some((_c, j)) => Some(j),
                None => None,
            }
        } else if b == 0x7b {
            let j = scan_ws(s, i + 1);
            if j < s.len() && s[j] == 0x7d {
                Some(j + 1)
            } else {
                scan_skip_object(s, j)
            }
        } else if b == 0x5b {
            let j = scan_ws(s, i + 1);
            if j < s.len() && s[j] == 0x5d {
                Some(j + 1)
            } else {
                scan_skip_array(s, j)
            }
        } else if b == 0x74 {
            if s.len() - i >= 4 && s[i + 1] == 0x72 && s[i + 2] == 0x75 && s[i + 3] == 0x65 {
                Some(i + 4)
            } else {
                None
            }
        } else if b == 0x66 {
            if s.len() - i >= 5 && s[i + 1] == 0x61 && s[i + 2] == 0x6c && s[i + 3] == 0x73 && s[i
                + 4] == 0x65 {
                Some(i + 5)
            } else {
                None
            }
        } else if b == 0x6e {
            if s.len() - i >= 4 && s[i + 1] == 0x75 && s[i + 2] == 0x6c && s[i + 3] == 0x6c {
                Some(i + 4)
            } else {
                None
            }
        } else {
            scan_number(s, i)
        }
    } else {
        None
    }
}

/// The members of an object being skipped, from the start of a key.
fn scan_skip_object(s: &[u8], i: usize) -> (r: Option<usize>)
    requires
        i <= s@.len(),
    ensures
        (match r {
            Some(j) => skip_object_items(s@, i as int) == Some(j as int) && i < j <= s@.len(),
            None => skip_object_items(s@, i as int) is None,
        }),
    decreases s@.len() - i, 1int,
{
    if i < s.len() && s[i] == 0x22 {
        match scan_string_body(s, i + 1) {
            None => None,
            Some((_key, j1)) => {
                let j2 = scan_ws(s, j1);
                if j2 < s.len() && s[j2] == 0x3a {
                    let j3 = scan_ws(s, j2 + 1);
                    match scan_skip_value(s, j3) {
                        None => None,
                        Some(j4) => {
                            let j5 = scan_ws(s, j4);
                            if j5 < s.len() && s[j5] == 0x2c {
                                let next = scan_ws(s, j5 + 1);
                                if i < next {
                                    scan_skip_object(s, next)
                                } else {
                                    None
                                }
                            } else if j5 < s.len() && s[j5] == 0x7d {
                                Some(j5 + 1)
                            } else {
                                None
                            }
                        },
                    }
                } else {
                    None
                }
            },
        }
    } else {
        None
    }
}

/// The elements of an array being skipped, from the start of a value.
fn scan_skip_array(s: &[u8], i: usize) -> (r: Option<usize>)
    requires
        i <= s@.len(),
    ensures
        (match r {
            Some(j) => skip_array_items(s@, i as int) == Some(j as int) && i < j <= s@.len(),
            None => skip_array_items(s@, i as int) is None,
        }),
    decreases s@.len() - i, 3int,
{
    match scan_skip_value(s, i) {
        None => None,
        Some(j4) => {
            let j5 = scan_ws(s, j4);
            if j5 < s.len() && s[j5] == 0x2c {
                let next = scan_ws(s, j5 + 1);
                if i < next {
                    scan_skip_array(s, next)
                } else {
                    None
                }
            } else if j5 < s.len() && s[j5] == 0x5d {
                Some(j5 + 1)
            } else {
                None
            }
        },
    }
}

/// The fields of an endpoint object, from the start of a key.
fn scan_endpoint_fields(
    s: &[u8],
    i: usize,
    host: Option<String>,
    port: Option<u16>,
) -> (r: Option<(ServiceEndpoint, usize)>)
    requires
        i <= s@.len(),
    ensures
        (match r {
            Some((ep, j)) => parse_endpoint_fields(
                s@,
                i as int,
                view_opt_string(host),
                port,
            ) == Some((ep@, j as int)) && i < j <= s@.len(),
            None => parse_endpoint_fields(s@, i as int, view_opt_string(host), port) is None,
        }),
    decreases s@.len() - i, 1int,
{
    match scan_string(s, i) {
        None => None,
        Some((key, j1)) => {
            let j2 = scan_ws(s, j1);
            if j2 < s.len() && s[j2] == 0x3a {
                let j3 = scan_ws(s, j2 + 1);
                let k_host = "host".to_owned();
                let k_port = "port".to_owned();
                if key == k_host {
                    match scan_string(s, j3) {
                        None => None,
                        Some((h, j4)) => scan_endpoint_more(s, i, j4, Some(h), port),
                    }
                } else if key == k_port {
                    match scan_port(s, j3) {
                        None => None,
                        Some((p, j4)) => scan_endpoint_more(s, i, j4, host, Some(p)),
                    }
                } else {
                    match scan_skip_value(s, j3) {
                        None => None,
                        Some(j4) => scan_endpoint_more(s, i, j4, host, port),
                    }
                }
            } else {
                None
            }
        },
    }
}

/// After one endpoint field's value: a comma continues, a closing brace
/// ends the object.
fn scan_endpoint_more(
    s: &[u8],
    i: usize,
    j: usize,
    host: Option<String>,
    port: Option<u16>,
) -> (r: Option<(ServiceEndpoint, usize)>)
    requires
        i <= j <= s@.len(),
    ensures
        (match r {
            Some((ep, j2)) => parse_endpoint_more(
                s@,
                i as int,
                j as int,
                view_opt_string(host),
                port,
            ) == Some((ep@, j2 as int)) && i < j2 <= s@.len(),
            None => parse_endpoint_more(
                s@,
                i as int,
                j as int,
                view_opt_string(host),
                port,
            ) is None,
        }),
    decreases s@.len() - i, 0int,
{
    let j5 = scan_ws(s, j);
    if j5 < s.len() && s[j5] == 0x2c {
        let next = scan_ws(s, j5 + 1);
        if i < next {
            scan_endpoint_fields(s, next, host, port)
        } else {
            None
        }
    } else if j5 < s.len() && s[j5] == 0x7d {
        match (host, port) {
            (Some(h), Some(p)) => Some((ServiceEndpoint { host: h, port: p }, j5 + 1)),
            _ => None,
        }
    } else {
        None
    }
}

/// One endpoint object at `i`.
fn scan_endpoint(s: &[u8], i: usize) -> (r: Option<(ServiceEndpoint, usize)>)
    requires
        i <= s@.len(),
    ensures
        (match r {
            Some((ep, j)) => parse_endpoint(s@, i as int) == Some((ep@, j as int)) && i < j
                <= s@.len(),
            None => parse_endpoint(s@, i as int) is None,
        }),
{
    if i < s.len() && s[i] == 0x7b {
        let j = scan_ws(s, i + 1);
        scan_endpoint_fields(s, j, None, None)
    } else {
        None
    }
}

/// Whether some entry of the role list carries this role name.
#[verifier::loop_isolation(false)]
fn roles_contain(v: &Vec<(String, ServiceEndpoint)>, role: &String) -> (b: bool)
    ensures
        b == assoc_view(v@).contains_key(role@),
{
    proof {
        lemma_assoc_view_contains(v@, role@);
    }
    let mut n: usize = 0;
    while n < v.len()
        invariant
            n <= v@.len(),
            forall|m: int| 0 <= m < n ==> v@[m].0@ != role@,
        decreases v@.len() - n,
    {
        if v[n].0 == *role {
            return true;
        }
        n = n + 1;
    }
    false
}

/// The entries of a role map, from the start of a role name.
fn scan_roles_fields(
    s: &[u8],
    i: usize,
    acc: Vec<(String, ServiceEndpoint)>,
) -> (r: Option<(Vec<(String, ServiceEndpoint)>, usize)>)
    requires
        i <= s@.len(),
        unique_keys(acc@),
    ensures
        (match r {
            Some((v, j)) => parse_roles_fields(s@, i as int, assoc_view(acc@)) == Some(
                (assoc_view(v@), j as int),
            ) && i < j <= s@.len() && unique_keys(v@),
            None => parse_roles_fields(s@, i as int, assoc_view(acc@)) is None,
        }),
    decreases s@.len() - i, 1int,
{
    match scan_string(s, i) {
        None => None,
        Some((role, j1)) => {
            let j2 = scan_ws(s, j1);
            if j2 < s.len() && s[j2] == 0x3a {
                let j3 = scan_ws(s, j2 + 1);
                if roles_contain(&acc, &role) {
                    None
                } else {
                    match scan_endpoint(s, j3) {
                        None => None,
                        Some((ep, j4)) => {
                            proof {
                                lemma_assoc_view_contains(acc@, role@);
                                lemma_assoc_view_push(acc@, (role, ep));
                            }
                            let mut acc2 = acc;
                            acc2.push((role, ep));
                            assert(unique_keys(acc2@)) by {
                                assert(forall|m: int|
                                    0 <= m < acc2@.len() - 1 ==> acc2@[m] == acc@[m]);
                            }
                            scan_roles_more(s, i, j4, acc2)
                        },
                    }
                }
            } else {
                None
            }
        },
    }
}

/// After one role's endpoint: a comma continues, a closing brace ends the
/// map.
fn scan_roles_more(
    s: &[u8],
    i: usize,
    j: usize,
    acc: Vec<(String, ServiceEndpoint)>,
) -> (r: Option<(Vec<(String, ServiceEndpoint)>, usize)>)
    requires
        i <= j <= s@.len(),
        unique_keys(acc@),
    ensures
        (match r {
            Some((v, j2)) => parse_roles_more(s@, i as int, j as int, assoc_view(acc@)) == Some(
                (assoc_view(v@), j2 as int),
            ) && i < j2 <= s@.len() && unique_keys(v@),
            None => parse_roles_more(s@, i as int, j as int, assoc_view(acc@)) is None,
        }),
    decreases s@.len() - i, 0int,
{
    let j5 = scan_ws(s, j);
    if j5 < s.len() && s[j5] == 0x2c {
        let next = scan_ws(s, j5 + 1);
        if i < next {
            scan_roles_fields(s, next, acc)
        } else {
            None
        }
    } else if j5 < s.len() && s[j5] == 0x7d {
        Some((acc, j5 + 1))
    } else {
        None
    }
}

/// One role map at `i`.
fn scan_roles(s: &[u8], i: usize) -> (r: Option<(Vec<(String, ServiceEndpoint)>, usize)>)
    requires
        i <= s@.len(),
    ensures
        (match r {
            Some((v, j)) => parse_roles(s@, i as int) == Some((assoc_view(v@), j as int)) && i < j
                <= s@.len() && unique_keys(v@),
            None => parse_roles(s@, i as int) is None,
        }),
{
    if i < s.len() && s[i] == 0x7b {
        let j = scan_ws(s, i + 1);
        if j < s.len() && s[j] == 0x7d {
            Some((Vec::new(), j + 1))
        } else {
            scan_roles_fields(s, j, Vec::new())
        }
    } else {
        None
    }
}

/// The fields of a member record, from the start of a key.
fn scan_member_fields(
    s: &[u8],
    i: usize,
    se: Option<ServiceEndpoint>,
    roles: Option<Vec<(String, ServiceEndpoint)>>,
    st: Option<String>,
) -> (r: Option<(ServersetMember, usize)>)
    requires
        i <= s@.len(),
        (match roles {
            Some(v) => unique_keys(v@),
            None => true,
        }),
    ensures
        (match r {
            Some((m, j)) => parse_member_fields(
                s@,
                i as int,
                view_opt_endpoint(se),
                view_opt_roles(roles),
                view_opt_string(st),
            ) == Some((m@, j as int)) && i < j <= s@.len() && m.wf(),
            None => parse_member_fields(
                s@,
                i as int,
                view_opt_endpoint(se),
                view_opt_roles(roles),
                view_opt_string(st),
            ) is None,
        }),
    decreases s@.len() - i, 1int,
{
    match scan_string(s, i) {
        None => None,
        Some((key, j1)) => {
            let j2 = scan_ws(s, j1);
            if j2 < s.len() && s[j2] == 0x3a {
                let j3 = scan_ws(s, j2 + 1);
                let k_se = "serviceEndpoint".to_owned();
                let k_roles = "additionalEndpoints".to_owned();
                let k_status = "status".to_owned();
                if key == k_se {
                    match scan_endpoint(s, j3) {
                        None => None,
                        Some((ep, j4)) => scan_member_more(s, i, j4, Some(ep), roles, st),
                    }
                } else if key == k_roles {
                    match scan_roles(s, j3) {
                        None => None,
                        Some((m, j4)) => scan_member_more(s, i, j4, se, Some(m), st),
                    }
                } else if key == k_status {
                    match scan_string(s, j3) {
                        None => None,
                        Some((t, j4)) => scan_member_more(s, i, j4, se, roles, Some(t)),
                    }
                } else {
                    match scan_skip_value(s, j3) {
                        None => None,
                        Some(j4) => scan_member_more(s, i, j4, se, roles, st),
                    }
                }
            } else {
                None
            }
        },
    }
}

/// After one member field's value: a comma continues, a closing brace ends
/// the record.
fn scan_member_more(
    s: &[u8],
    i: usize,
    j: usize,
    se: Option<ServiceEndpoint>,
    roles: Option<Vec<(String, ServiceEndpoint)>>,
    st: Option<String>,
) -> (r: Option<(ServersetMember, usize)>)
    requires
        i <= j <= s@.len(),
        (match roles {
            Some(v) => unique_keys(v@),
            None => true,
        }),
    ensures
        (match r {
            Some((m, j2)) => parse_member_more(
                s@,
                i as int,
                j as int,
                view_opt_endpoint(se),
                view_opt_roles(roles),
                view_opt_string(st),
            ) == Some((m@, j2 as int)) && i < j2 <= s@.len() && m.wf(),
            None => parse_member_more(
                s@,
                i as int,
                j as int,
                view_opt_endpoint(se),
                view_opt_roles(roles),
                view_opt_string(st),
            ) is None,
        }),
    decreases s@.len() - i, 0int,
{
    let j5 = scan_ws(s, j);
    if j5 < s.len() && s[j5] == 0x2c {
        let next = scan_ws(s, j5 + 1);
        if i < next {
            scan_member_fields(s, next, se, roles, st)
        } else {
            None
        }
    } else if j5 < s.len() && s[j5] == 0x7d {
        match (se, roles, st) {
            (Some(e), Some(r), Some(t)) => Some(
                (
                    ServersetMember {
                        service_endpoint: e,
                        additional_endpoints: r,
                        status: t,
                    },
                    j5 + 1,
                ),
            ),
            _ => None,
        }
    } else {
        None
    }
}

/// Decode one node payload into a member record.
///
/// Returns exactly what [`spec_decode`] describes: `DecodeError::Utf8` for a
/// payload that is not valid UTF-8, `DecodeError::Malformed` for one that is
/// not a well-formed member record, and otherwise the record, whose role
/// names are pairwise distinct.
pub fn decode_member(raw: &[u8]) -> (r: Result<ServersetMember, DecodeError>)
    ensures
        (match r {
            Ok(m) => spec_decode(raw@) == Ok::<MemberModel, DecodeError>(m@) && m.wf(),
            Err(e) => spec_decode(raw@) == Err::<MemberModel, DecodeError>(e),
        }),
{
    if !utf8_valid(raw) {
        return Err(DecodeError::Utf8);
    }
    let i0 = scan_ws(raw, 0);
    if i0 < raw.len() && raw[i0] == 0x7b {
        let j = scan_ws(raw, i0 + 1);
        match scan_member_fields(raw, j, None, None, None) {
            Some((m, j2)) => {
                if scan_ws(raw, j2) == raw.len() {
                    Ok(m)
                } else {
                    Err(DecodeError::Malformed)
                }
            },
            None => Err(DecodeError::Malformed),
        }
    } else {
        Err(DecodeError::Malformed)
    }
}

} // verus!
