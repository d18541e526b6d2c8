//! Mathematical model of the member-node payload format.
//!
//! A payload is the JSON text of one member record: an object with the three
//! fields `serviceEndpoint` (an object with `host` and `port`),
//! `additionalEndpoints` (an object mapping role names to endpoint objects)
//! and `status` (a string), in any order.  Fields this format does not know
//! are skipped, and of a repeated field the last value wins, as a decoder
//! over a generic JSON tree behaves.  Strings use the escapes of JSON, `\u`
//! and surrogate pairs included; ports are the unsigned decimal integers
//! that fit sixteen bits.  These functions define, byte by byte, what the
//! executable decoder returns; the decoder is proved against them.
//!
//! Each `parse_*` function takes the payload and the position of the first
//! byte of the construct (whitespace already skipped) and yields the parsed
//! value with the position one past the construct, or `None` when the bytes
//! do not form the construct.

use vstd::prelude::*;
use vstd::utf8::{valid_utf8, decode_utf8, encode_scalar};
use crate::record::{EndpointModel, MemberModel, DecodeError};

verus! {

/// JSON whitespace.
pub open spec fn is_ws(b: u8) -> bool {
    b == 0x20 || b == 0x09 || b == 0x0a || b == 0x0d
}

/// The first position at or after `i` that does not hold whitespace.
pub open spec fn skip_ws(s: Seq<u8>, i: int) -> int
    decreases s.len() - i,
        when 0 <= i <= s.len()
{
    if i < s.len() && is_ws(s[i]) {
        skip_ws(s, i + 1)
    } else {
        i
    }
}

/// The byte that a single-character backslash escape stands for; `\u` is
/// handled separately by [`parse_u_escape`].
pub open spec fn unescape(b: u8) -> Option<u8> {
    if b == 0x22 {  // "
        Some(0x22u8)
    } else if b == 0x5c {  // backslash
        Some(0x5cu8)
    } else if b == 0x2f {  // /
        Some(0x2fu8)
    } else if b == 0x62 {  // b
        Some(0x08u8)
    } else if b == 0x66 {  // f
        Some(0x0cu8)
    } else if b == 0x6e {  // n
        Some(0x0au8)
    } else if b == 0x72 {  // r
        Some(0x0du8)
    } else if b == 0x74 {  // t
        Some(0x09u8)
    } else {
        None
    }
}

/// The value of a hexadecimal digit.
pub open spec fn hex_val(b: u8) -> Option<u32> {
    if 0x30 <= b <= 0x39 {  // 0-9
        Some((b - 0x30) as u32)
    } else if 0x61 <= b <= 0x66 {  // a-f
        Some((b - 0x61 + 10) as u32)
    } else if 0x41 <= b <= 0x46 {  // A-F
        Some((b - 0x41 + 10) as u32)
    } else {
        None
    }
}

/// The four-digit hexadecimal code unit starting at `i`.
pub open spec fn hex4(s: Seq<u8>, i: int) -> Option<u32> {
    if 0 <= i && i + 4 <= s.len() {
        match (hex_val(s[i]), hex_val(s[i + 1]), hex_val(s[i + 2]), hex_val(s[i + 3])) {
            (Some(a), Some(b), Some(c), Some(d)) => Some(
                (a * 0x1000 + b * 0x100 + c * 0x10 + d) as u32,
            ),
            _ => None,
        }
    } else {
        None
    }
}

/// The content bytes a `\u` escape at `i` (the backslash) stands for — the
/// UTF-8 encoding of its scalar — with the position one past the escape.  A
/// character beyond the basic plane is two consecutive escapes forming a
/// surrogate pair; a lone surrogate does not form a string.
pub open spec fn parse_u_escape(s: Seq<u8>, i: int) -> Option<(Seq<u8>, int)> {
    match hex4(s, i + 2) {
        None => None,
        Some(c1) => if c1 < 0xD800 || c1 > 0xDFFF {
            Some((encode_scalar(c1), i + 6))
        } else if c1 <= 0xDBFF {  // high surrogate: a low one must follow
            if i + 8 <= s.len() && s[i + 6] == 0x5c && s[i + 7] == 0x75 {
                match hex4(s, i + 8) {
                    None => None,
                    Some(c2) => if 0xDC00 <= c2 <= 0xDFFF {
                        Some(
                            (
                                encode_scalar(
                                    (0x10000 + (c1 - 0xD800) * 0x400 + (c2 - 0xDC00)) as u32,
                                ),
                                i + 12,
                            ),
                        )
                    } else {
                        None
                    },
                }
            } else {
                None
            }
        } else {
            None
        },
    }
}

/// The unescaped content bytes of a string, starting just after the opening
/// quote, together with the position one past the closing quote.
pub open spec fn parse_string_body(s: Seq<u8>, i: int) -> Option<(Seq<u8>, int)>
    decreases s.len() - i,
        when 0 <= i <= s.len()
{
    if i >= s.len() {
        None
    } else if s[i] == 0x22 {  // closing "
        Some((Seq::<u8>::empty(), i + 1))
    } else if s[i] == 0x5c {  // escape
        if i + 1 < s.len() {
            if s[i + 1] == 0x75 {  // u
                match parse_u_escape(s, i) {
                    None => None,
                    Some((enc, j)) => if i < j <= s.len() {
                        match parse_string_body(s, j) {
                            Some((rest, j2)) => Some((enc + rest, j2)),
                            None => None,
                        }
                    } else {
                        None
                    },
                }
            } else {
                match unescape(s[i + 1]) {
                    Some(u) => match parse_string_body(s, i + 2) {
                        Some((rest, j)) => Some((seq![u] + rest, j)),
                        None => None,
                    },
                    None => None,
                }
            }
        } else {
            None
        }
    } else if s[i] < 0x20 {  // unescaped control byte
        None
    } else {
        match parse_string_body(s, i + 1) {
            Some((rest, j)) => Some((seq![s[i]] + rest, j)),
            None => None,
        }
    }
}

/// A quoted string at `i`, as its unescaped content bytes.
pub open spec fn parse_string_raw(s: Seq<u8>, i: int) -> Option<(Seq<u8>, int)> {
    if 0 <= i < s.len() && s[i] == 0x22 {
        parse_string_body(s, i + 1)
    } else {
        None
    }
}

/// A quoted string at `i`, as the character sequence its content encodes;
/// content that is not valid UTF-8 does not form a string value.
pub open spec fn parse_string_chars(s: Seq<u8>, i: int) -> Option<(Seq<char>, int)> {
    match parse_string_raw(s, i) {
        Some((content, j)) => if valid_utf8(content) {
            Some((decode_utf8(content), j))
        } else {
            None
        },
        None => None,
    }
}

pub open spec fn is_digit(b: u8) -> bool {
    0x30 <= b <= 0x39
}

/// The longest run of digits from `i`, folded into `acc`; more than a port
/// can hold does not form a port number.
pub open spec fn parse_digits(s: Seq<u8>, i: int, acc: int) -> Option<(int, int)>
    decreases s.len() - i,
        when 0 <= i <= s.len()
{
    if i < s.len() && is_digit(s[i]) {
        let v = acc * 10 + (s[i] - 0x30);
        if v <= 0xffff {
            parse_digits(s, i + 1, v)
        } else {
            None
        }
    } else {
        Some((acc, i))
    }
}

/// An unsigned decimal port number at `i`: no sign, no leading zero, at most
/// the largest 16-bit value.
pub open spec fn parse_port(s: Seq<u8>, i: int) -> Option<(u16, int)> {
    if 0 <= i < s.len() && is_digit(s[i]) {
        if s[i] == 0x30 {  // a leading zero stands alone
            if i + 1 < s.len() && is_digit(s[i + 1]) {
                None
            } else {
                Some((0u16, i + 1))
            }
        } else {
            match parse_digits(s, i, 0) {
                Some((v, j)) => Some((v as u16, j)),
                None => None,
            }
        }
    } else {
        None
    }
}

/// The first position at or after `i` that does not hold a decimal digit.
pub open spec fn skip_digits(s: Seq<u8>, i: int) -> int
    decreases s.len() - i,
        when 0 <= i <= s.len()
{
    if i < s.len() && is_digit(s[i]) {
        skip_digits(s, i + 1)
    } else {
        i
    }
}

/// The position one past a number's exponent part at `b`, if any.
pub open spec fn skip_exponent(s: Seq<u8>, b: int) -> Option<int> {
    if 0 <= b < s.len() && (s[b] == 0x65 || s[b] == 0x45) {  // e E
        let c = if b + 1 < s.len() && (s[b + 1] == 0x2b || s[b + 1] == 0x2d) {  // + -
            b + 2
        } else {
            b + 1
        };
        if 0 <= c < s.len() && is_digit(s[c]) {
            Some(skip_digits(s, c))
        } else {
            None
        }
    } else {
        Some(b)
    }
}

/// The position one past a number's fraction and exponent parts at `b`, if
/// any.
pub open spec fn skip_fraction(s: Seq<u8>, b: int) -> Option<int> {
    if 0 <= b < s.len() && s[b] == 0x2e {  // .
        if b + 1 < s.len() && is_digit(s[b + 1]) {
            skip_exponent(s, skip_digits(s, b + 1))
        } else {
            None
        }
    } else {
        skip_exponent(s, b)
    }
}

/// A JSON number at `i`, skipped: optional minus, an integer part without a
/// superfluous leading zero, optional fraction and exponent.
pub open spec fn skip_number(s: Seq<u8>, i: int) -> Option<int> {
    let a = if 0 <= i < s.len() && s[i] == 0x2d {  // -
        i + 1
    } else {
        i
    };
    if 0 <= a < s.len() && is_digit(s[a]) {
        if s[a] == 0x30 {  // a leading zero stands alone
            if a + 1 < s.len() && is_digit(s[a + 1]) {
                None
            } else {
                skip_fraction(s, a + 1)
            }
        } else {
            skip_fraction(s, skip_digits(s, a))
        }
    } else {
        None
    }
}

/// Any JSON value at `i`, skipped: the position one past it.  The member
/// record's objects may carry fields this format does not know; such a
/// field's value is checked for JSON shape and discarded.
pub open spec fn skip_value(s: Seq<u8>, i: int) -> Option<int>
    decreases s.len() - i, 2int,
        when 0 <= i <= s.len()
{
    if i < s.len() {
        if s[i] == 0x22 {  // string
            match parse_string_body(s, i + 1) {
                Some((c, j)) => Some(j),
                None => None,
            }
        } else if s[i] == 0x7b {  // object
            let j = skip_ws(s, i + 1);
            if i < j <= s.len() {
                if j < s.len() && s[j] == 0x7d {
                    Some(j + 1)
                } else {
                    skip_object_items(s, j)
                }
            } else {
                None
            }
        } else if s[i] == 0x5b {  // array
            let j = skip_ws(s, i + 1);
            if i < j <= s.len() {
                if j < s.len() && s[j] == 0x5d {
                    Some(j + 1)
                } else {
                    skip_array_items(s, j)
                }
            } else {
                None
            }
        } else if s[i] == 0x74 {  // true
            if i + 4 <= s.len() && s[i + 1] == 0x72 && s[i + 2] == 0x75 && s[i + 3] == 0x65 {
                Some(i + 4)
            } else {
                None
            }
        } else if s[i] == 0x66 {  // false
            if i + 5 <= s.len() && s[i + 1] == 0x61 && s[i + 2] == 0x6c && s[i + 3] == 0x73 && s[i
                + 4] == 0x65 {
                Some(i + 5)
            } else {
                None
            }
        } else if s[i] == 0x6e {  // null
            if i + 4 <= s.len() && s[i + 1] == 0x75 && s[i + 2] == 0x6c && s[i + 3] == 0x6c {
                Some(i + 4)
            } else {
                None
            }
        } else {
            skip_number(s, i)
        }
    } else {
        None
    }
}

/// The members of an object being skipped, from the start of a key.
pub open spec fn skip_object_items(s: Seq<u8>, i: int) -> Option<int>
    decreases s.len() - i, 1int,
        when 0 <= i <= s.len()
{
    match parse_string_raw(s, i) {
        None => None,
        Some((key, j1)) => {
            let j2 = skip_ws(s, if 0 <= j1 <= s.len() { j1 } else { i });
            if j2 < s.len() && s[j2] == 0x3a {  // :
                let j3 = skip_ws(s, j2 + 1);
                if i < j3 <= s.len() {
                    match skip_value(s, j3) {
                        None => None,
                        Some(j4) => {
                            let j5 = skip_ws(s, if 0 <= j4 <= s.len() { j4 } else { i });
                            if j5 < s.len() && s[j5] == 0x2c {  // ,
                                let next = skip_ws(s, j5 + 1);
                                if i < next <= s.len() {
                                    skip_object_items(s, next)
                                } else {
                                    None
                                }
                            } else if j5 < s.len() && s[j5] == 0x7d {  // }
                                Some(j5 + 1)
                            } else {
                                None
                            }
                        },
                    }
                } else {
                    None
                }
            } else {
                None
            }
        },
    }
}

/// The elements of an array being skipped, from the start of a value.
pub open spec fn skip_array_items(s: Seq<u8>, i: int) -> Option<int>
    decreases s.len() - i, 3int,
        when 0 <= i <= s.len()
{
    match skip_value(s, i) {
        None => None,
        Some(j4) => {
            let j5 = skip_ws(s, if 0 <= j4 <= s.len() { j4 } else { i });
            if j5 < s.len() && s[j5] == 0x2c {  // ,
                let next = skip_ws(s, j5 + 1);
                if i < next <= s.len() {
                    skip_array_items(s, next)
                } else {
                    None
                }
            } else if j5 < s.len() && s[j5] == 0x5d {  // ]
                Some(j5 + 1)
            } else {
                None
            }
        },
    }
}

/// The fields of an endpoint object, from the start of a key (whitespace
/// skipped, opening brace consumed).  `host` and `port` hold the fields seen
/// so far; a repeated key's later value wins, an unknown key's value is
/// skipped.
pub open spec fn parse_endpoint_fields(
    s: Seq<u8>,
    i: int,
    host: Option<Seq<char>>,
    port: Option<u16>,
) -> Option<(EndpointModel, int)>
    decreases s.len() - i, 1int,
        when 0 <= i <= s.len()
{
    match parse_string_chars(s, i) {
        None => None,
        Some((key, j1)) => {
            let j2 = skip_ws(s, if j1 <= s.len() && j1 >= 0 { j1 } else { i });
            if j2 < s.len() && s[j2] == 0x3a {  // :
                let j3 = skip_ws(s, j2 + 1);
                if key == "host"@ {
                    match parse_string_chars(s, j3) {
                        None => None,
                        Some((h, j4)) => parse_endpoint_more(s, i, j4, Some(h), port),
                    }
                } else if key == "port"@ {
                    match parse_port(s, j3) {
                        None => None,
                        Some((p, j4)) => parse_endpoint_more(s, i, j4, host, Some(p)),
                    }
                } else {
                    match skip_value(s, j3) {
                        None => None,
                        Some(j4) => parse_endpoint_more(s, i, j4, host, port),
                    }
                }
            } else {
                None
            }
        },
    }
}

/// After one endpoint field's value (which ended at `j`): a comma continues
/// with the next key, a closing brace ends the object, which must then hold
/// both fields.  `i` is the position the current key started at; it only
/// bounds the recursion.
pub open spec fn parse_endpoint_more(
    s: Seq<u8>,
    i: int,
    j: int,
    host: Option<Seq<char>>,
    port: Option<u16>,
) -> Option<(EndpointModel, int)>
    decreases s.len() - i, 0int,
        when 0 <= i <= s.len()
{
    let j5 = skip_ws(s, if 0 <= j <= s.len() { j } else { i });
    if j5 < s.len() && s[j5] == 0x2c {  // ,
        let next = skip_ws(s, j5 + 1);
        if i < next <= s.len() {
            parse_endpoint_fields(s, next, host, port)
        } else {
            None
        }
    } else if j5 < s.len() && s[j5] == 0x7d {  // }
        match (host, port) {
            (Some(h), Some(p)) => Some((EndpointModel { host: h, port: p }, j5 + 1)),
            _ => None,
        }
    } else {
        None
    }
}

/// An endpoint object at `i`: `{ "host": <string>, "port": <number> }`, the
/// two fields in either order.
pub open spec fn parse_endpoint(s: Seq<u8>, i: int) -> Option<(EndpointModel, int)> {
    if 0 <= i < s.len() && s[i] == 0x7b {  // {
        let j = skip_ws(s, i + 1);
        parse_endpoint_fields(s, j, None, None)
    } else {
        None
    }
}

/// The entries of a role map, from the start of a role name (whitespace
/// skipped, opening brace consumed).  `acc` holds the roles seen so far; a
/// repeated role name does not form a role map.
pub open spec fn parse_roles_fields(
    s: Seq<u8>,
    i: int,
    acc: Map<Seq<char>, EndpointModel>,
) -> Option<(Map<Seq<char>, EndpointModel>, int)>
    decreases s.len() - i, 1int,
        when 0 <= i <= s.len()
{
    match parse_string_chars(s, i) {
        None => None,
        Some((role, j1)) => {
            let j2 = skip_ws(s, if 0 <= j1 <= s.len() { j1 } else { i });
            if j2 < s.len() && s[j2] == 0x3a {  // :
                let j3 = skip_ws(s, j2 + 1);
                if acc.contains_key(role) {
                    None
                } else {
                    match parse_endpoint(s, j3) {
                        None => None,
                        Some((ep, j4)) => parse_roles_more(s, i, j4, acc.insert(role, ep)),
                    }
                }
            } else {
                None
            }
        },
    }
}

/// After one role's endpoint (which ended at `j`): a comma continues with
/// the next role, a closing brace ends the map.  `i` is the position the
/// current role started at; it only bounds the recursion.
pub open spec fn parse_roles_more(
    s: Seq<u8>,
    i: int,
    j: int,
    acc: Map<Seq<char>, EndpointModel>,
) -> Option<(Map<Seq<char>, EndpointModel>, int)>
    decreases s.len() - i, 0int,
        when 0 <= i <= s.len()
{
    let j5 = skip_ws(s, if 0 <= j <= s.len() { j } else { i });
    if j5 < s.len() && s[j5] == 0x2c {  // ,
        let next = skip_ws(s, j5 + 1);
        if i < next <= s.len() {
            parse_roles_fields(s, next, acc)
        } else {
            None
        }
    } else if j5 < s.len() && s[j5] == 0x7d {  // }
        Some((acc, j5 + 1))
    } else {
        None
    }
}

/// A role map at `i`: `{}` or `{ "role": <endpoint>, ... }`, role names
/// pairwise distinct.
pub open spec fn parse_roles(s: Seq<u8>, i: int) -> Option<(Map<Seq<char>, EndpointModel>, int)> {
    if 0 <= i < s.len() && s[i] == 0x7b {  // {
        let j = skip_ws(s, i + 1);
        if j < s.len() && s[j] == 0x7d {  // an empty map
            Some((Map::empty(), j + 1))
        } else {
            parse_roles_fields(s, j, Map::empty())
        }
    } else {
        None
    }
}

/// The fields of a member record, from the start of a key (whitespace
/// skipped, opening brace consumed).  `se`, `roles` and `st` hold the fields
/// seen so far; a repeated key's later value wins, an unknown key's value is
/// skipped.
pub open spec fn parse_member_fields(
    s: Seq<u8>,
    i: int,
    se: Option<EndpointModel>,
    roles: Option<Map<Seq<char>, EndpointModel>>,
    st: Option<Seq<char>>,
) -> Option<(MemberModel, int)>
    decreases s.len() - i, 1int,
        when 0 <= i <= s.len()
{
    match parse_string_chars(s, i) {
        None => None,
        Some((key, j1)) => {
            let j2 = skip_ws(s, if 0 <= j1 <= s.len() { j1 } else { i });
            if j2 < s.len() && s[j2] == 0x3a {  // :
                let j3 = skip_ws(s, j2 + 1);
                if key == "serviceEndpoint"@ {
                    match parse_endpoint(s, j3) {
                        None => None,
                        Some((ep, j4)) => parse_member_more(s, i, j4, Some(ep), roles, st),
                    }
                } else if key == "additionalEndpoints"@ {
                    match parse_roles(s, j3) {
                        None => None,
                        Some((m, j4)) => parse_member_more(s, i, j4, se, Some(m), st),
                    }
                } else if key == "status"@ {
                    match parse_string_chars(s, j3) {
                        None => None,
                        Some((t, j4)) => parse_member_more(s, i, j4, se, roles, Some(t)),
                    }
                } else {
                    match skip_value(s, j3) {
                        None => None,
                        Some(j4) => parse_member_more(s, i, j4, se, roles, st),
                    }
                }
            } else {
                None
            }
        },
    }
}

/// After one member field's value (which ended at `j`): a comma continues
/// with the next key, a closing brace ends the record, which must then hold
/// all three fields.  `i` is the position the current key started at; it
/// only bounds the recursion.
pub open spec fn parse_member_more(
    s: Seq<u8>,
    i: int,
    j: int,
    se: Option<EndpointModel>,
    roles: Option<Map<Seq<char>, EndpointModel>>,
    st: Option<Seq<char>>,
) -> Option<(MemberModel, int)>
    decreases s.len() - i, 0int,
        when 0 <= i <= s.len()
{
    let j5 = skip_ws(s, if 0 <= j <= s.len() { j } else { i });
    if j5 < s.len() && s[j5] == 0x2c {  // ,
        let next = skip_ws(s, j5 + 1);
        if i < next <= s.len() {
            parse_member_fields(s, next, se, roles, st)
        } else {
            None
        }
    } else if j5 < s.len() && s[j5] == 0x7d {  // }
        match (se, roles, st) {
            (Some(e), Some(r), Some(t)) => Some(
                (
                    MemberModel {
                        service_endpoint: e,
                        additional_endpoints: r,
                        status: t,
                    },
                    j5 + 1,
                ),
            ),
            _ => None,
        }
    } else {
        None
    }
}

/// A whole payload as one member record: the record object with nothing but
/// whitespace around it.
pub open spec fn parse_member(s: Seq<u8>) -> Option<MemberModel> {
    let i0 = skip_ws(s, 0);
    if 0 <= i0 < s.len() && s[i0] == 0x7b {  // {
        let j = skip_ws(s, i0 + 1);
        match parse_member_fields(s, j, None, None, None) {
            Some((m, j2)) => if 0 <= j2 <= s.len() && skip_ws(s, j2) == s.len() {
                Some(m)
            } else {
                None
            },
            None => None,
        }
    } else {
        None
    }
}

/// What decoding a payload returns: payloads that are not UTF-8 and payloads
/// that are not a member record fail with distinct kinds.
pub open spec fn spec_decode(raw: Seq<u8>) -> Result<MemberModel, DecodeError> {
    if !valid_utf8(raw) {
        Err(DecodeError::Utf8)
    } else {
        match parse_member(raw) {
            Some(m) => Ok(m),
            None => Err(DecodeError::Malformed),
        }
    }
}

} // verus!
