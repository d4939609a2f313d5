use crate::encoding::{index_of, lemma_index_of};
use vstd::prelude::*;

verus! {

/// Whether `b` is valid UTF-8.
pub uninterp spec fn utf8_valid(b: Seq<u8>) -> bool;

/// Relies on core::str::from_utf8: it succeeds exactly on valid UTF-8.
#[verifier::external_body]
fn is_utf8(b: &[u8]) -> (r: bool)
    ensures
        r == utf8_valid(b@),
{
    core::str::from_utf8(b).is_ok()
}

/// The HTTP methods the gateway uses.
#[derive(Clone, Copy, Debug, PartialEq, Eq, Structural)]
pub enum HttpMethod {
    Get,
    Post,
}

/// The bytes of a method's name.
pub open spec fn method_name(m: HttpMethod) -> Seq<u8> {
    match m {
        HttpMethod::Get => seq![0x47u8, 0x45, 0x54],
        HttpMethod::Post => seq![0x50u8, 0x4f, 0x53, 0x54],
    }
}

impl HttpMethod {
    /// The method's name, as it stands in a request line.
    pub fn name(&self) -> (r: Vec<u8>)
        ensures
            r@ == method_name(*self),
    {
        match self {
            HttpMethod::Get => vec![0x47u8, 0x45, 0x54],
            HttpMethod::Post => vec![0x50u8, 0x4f, 0x53, 0x54],
        }
    }

    /// The method a name stands for; `None` for any other name.
    pub fn from_name(value: &[u8]) -> (r: Option<HttpMethod>)
        ensures
            r == (if value@ == method_name(HttpMethod::Get) {
                Some(HttpMethod::Get)
            } else if value@ == method_name(HttpMethod::Post) {
                Some(HttpMethod::Post)
            } else {
                None::<HttpMethod>
            }),
    {
        if value.len() == 3 && value[0] == 0x47 && value[1] == 0x45 && value[2] == 0x54 {
            assert(value@ =~= method_name(HttpMethod::Get));
            Some(HttpMethod::Get)
        } else if value.len() == 4 && value[0] == 0x50 && value[1] == 0x4f && value[2] == 0x53
            && value[3] == 0x54 {
            assert(value@ =~= method_name(HttpMethod::Post));
            Some(HttpMethod::Post)
        } else {
            proof {
                if value@ == method_name(HttpMethod::Get) {
                    assert(value@[0] == 0x47 && value@[1] == 0x45 && value@[2] == 0x54);
                }
                if value@ == method_name(HttpMethod::Post) {
                    assert(value@[0] == 0x50 && value@[1] == 0x4f && value@[2] == 0x53 && value@[3]
                        == 0x54);
                }
            }
            None
        }
    }
}

/// The value of a string of decimal digits.
pub open spec fn decimal_value(s: Seq<u8>) -> int
    decreases s.len(),
{
    if s.len() == 0 {
        0
    } else {
        decimal_value(s.drop_last()) * 10 + (s.last() - 0x30)
    }
}

/// Whether every byte of `s` is a decimal digit.
pub open spec fn all_digits(s: Seq<u8>) -> bool {
    forall|i: int| 0 <= i < s.len() ==> 0x30 <= #[trigger] s[i] <= 0x39
}

/// A `u16` written in decimal, with an optional leading `+`, as Rust's
/// `u16::from_str` reads it.
pub open spec fn parse_u16_decimal(s: Seq<u8>) -> Option<u16> {
    let d = if s.len() > 0 && s[0] == 0x2b {
        s.skip(1)
    } else {
        s
    };
    if d.len() > 0 && all_digits(d) && decimal_value(d) <= 0xFFFF {
        Some(decimal_value(d) as u16)
    } else {
        None
    }
}

/// The digits of a status line's prefix `HTTP/1.0 ` or `HTTP/1.1 `.
pub open spec fn has_http_prefix(line: Seq<u8>) -> bool {
    line.len() >= 9 && line.take(8) == seq![0x48u8, 0x54, 0x54, 0x50, 0x2f, 0x31, 0x2e, line[7]]
        && (line[7] == 0x30 || line[7] == 0x31) && line[8] == 0x20
}

/// The status code of an HTTP response's first line: `HTTP/1.0 ` or
/// `HTTP/1.1 `, then the code up to the next space. `None` when the line is
/// not valid UTF-8 or not of that form.
pub open spec fn status_of_line(line: Seq<u8>) -> Option<u16> {
    if !utf8_valid(line) || !has_http_prefix(line) {
        None
    } else {
        let rest = line.skip(9);
        let i = index_of(rest, 0x20);
        if i >= rest.len() {
            None
        } else {
            parse_u16_decimal(rest.take(i))
        }
    }
}

/// The part of an HTTP response that the gateway keeps.
pub struct HttpResponse {
    status: u16,
}

/// Reads a `u16` in decimal.
fn parse_u16(s: &[u8]) -> (r: Option<u16>)
    ensures
        r == parse_u16_decimal(s@),
{
    let start: usize = if s.len() > 0 && s[0] == 0x2b {
        1
    } else {
        0
    };
    let ghost d = if s@.len() > 0 && s@[0] == 0x2b {
        s@.skip(1)
    } else {
        s@
    };
    assert(d =~= s@.skip(start as int));
    if start >= s.len() {
        return None;
    }
    let mut v: u32 = 0;
    let mut i: usize = start;
    while i < s.len()
        invariant
            start <= i <= s.len(),
            d == s@.skip(start as int),
            d == (if s@.len() > 0 && s@[0] == 0x2b {
                s@.skip(1)
            } else {
                s@
            }),
            d.len() > 0,
            all_digits(s@.subrange(start as int, i as int)),
            v == decimal_value(s@.subrange(start as int, i as int)),
            v <= 0xFFFF,
        decreases s.len() - i,
    {
        let c = s[i];
        assert(s@.subrange(start as int, i + 1).drop_last() =~= s@.subrange(start as int, i as int));
        if c < 0x30 || c > 0x39 {
            assert(!all_digits(d)) by {
                assert(d[i - start] == c);
            }
            assert(parse_u16_decimal(s@) is None);
            return None;
        }
        let next: u32 = v * 10 + (c - 0x30) as u32;
        if next > 0xFFFF {
            proof {
                if all_digits(d) {
                    lemma_decimal_grows(d, i + 1 - start);
                    assert(d.take(i + 1 - start) =~= s@.subrange(start as int, i + 1));
                }
            }
            assert(parse_u16_decimal(s@) is None);
            return None;
        }
        v = next;
        i = i + 1;
    }
    assert(s@.subrange(start as int, s.len() as int) =~= d);
    Some(v as u16)
}

/// A string of digits is worth at least any of its prefixes.
proof fn lemma_decimal_grows(d: Seq<u8>, k: int)
    requires
        0 <= k <= d.len(),
        all_digits(d),
    ensures
        decimal_value(d) >= decimal_value(d.take(k)),
    decreases d.len(),
{
    if k < d.len() {
        assert(d.drop_last().take(k) =~= d.take(k));
        lemma_decimal_grows(d.drop_last(), k);
        assert(decimal_value(d.drop_last()) >= 0) by {
            lemma_decimal_nonneg(d.drop_last());
        }
    } else {
        assert(d.take(k) =~= d);
    }
}

/// A string of digits has a value of at least zero.
proof fn lemma_decimal_nonneg(d: Seq<u8>)
    requires
        all_digits(d),
    ensures
        decimal_value(d) >= 0,
    decreases d.len(),
{
    if d.len() > 0 {
        lemma_decimal_nonneg(d.drop_last());
    }
}

impl HttpResponse {
    /// Reads the status code out of a response's first line (without its
    /// line break); `None` when the line is not a valid status line.
    pub fn from_status_line(line: &[u8]) -> (r: Option<HttpResponse>)
        ensures
            match status_of_line(line@) {
                None => r is None,
                Some(s) => r is Some && r->Some_0.status_code() == s,
            },
    {
        if !is_utf8(line) {
            return None;
        }
        if line.len() < 9 || line[0] != 0x48 || line[1] != 0x54 || line[2] != 0x54 || line[3]
            != 0x50 || line[4] != 0x2f || line[5] != 0x31 || line[6] != 0x2e || (line[7] != 0x30
            && line[7] != 0x31) || line[8] != 0x20 {
            proof {
                if has_http_prefix(line@) {
                    let p = line@.take(8);
                    assert(p[0] == line@[0] && p[1] == line@[1] && p[2] == line@[2] && p[3]
                        == line@[3] && p[4] == line@[4] && p[5] == line@[5] && p[6] == line@[6]);
                }
            }
            return None;
        }
        assert(line@.take(8) =~= seq![0x48u8, 0x54, 0x54, 0x50, 0x2f, 0x31, 0x2e, line@[7]]);
        let rest = vstd::slice::slice_subrange(line, 9, line.len());
        assert(rest@ =~= line@.skip(9));
        let mut i: usize = 0;
        while i < rest.len()
            invariant
                i <= rest.len(),
                forall|j: int| 0 <= j < i ==> rest@[j] != 0x20,
                rest@ == line@.skip(9),
                utf8_valid(line@),
                has_http_prefix(line@),
            decreases rest.len() - i,
        {
            if rest[i] == 0x20 {
                proof {
                    lemma_index_of(rest@, 0x20, i as int);
                }
                let code = vstd::slice::slice_subrange(rest, 0, i);
                assert(code@ =~= rest@.take(i as int));
                return match parse_u16(code) {
                    Some(status) => Some(HttpResponse { status }),
                    None => None,
                };
            }
            i = i + 1;
        }
        proof {
            lemma_index_of(rest@, 0x20, rest@.len() as int);
        }
        None
    }

    /// The response's status code.
    pub closed spec fn status_code(&self) -> u16 {
        self.status
    }

    /// The response's status code.
    pub fn status(&self) -> (r: u16)
        ensures
            r == self.status_code(),
    {
        self.status
    }
}

} // verus!
