//! Base64 text, as JSON writes bytes fields: the standard alphabet, groups
//! of four characters, `=` padding in the last group.
use vstd::prelude::*;

verus! {

/// The six-bit value of a base64 character.
pub open spec fn b64_value(c: char) -> Option<int> {
    if 'A' <= c && c <= 'Z' {
        Some(c as int - 'A' as int)
    } else if 'a' <= c && c <= 'z' {
        Some(c as int - 'a' as int + 26)
    } else if '0' <= c && c <= '9' {
        Some(c as int - '0' as int + 52)
    } else if c == '+' {
        Some(62)
    } else if c == '/' {
        Some(63)
    } else {
        None
    }
}

/// The three bytes that four six-bit values `a b c d` stand for.
pub open spec fn group_bytes(a: int, b: int, c: int, d: int) -> Seq<u8> {
    seq![(a * 4 + b / 16) as u8, ((b % 16) * 16 + c / 4) as u8, ((c % 4) * 64 + d) as u8]
}

/// The bytes of the group of four characters at `i`; the last group may
/// end in `=` or `==`, which drop two or one of its three bytes.
pub open spec fn decode_group(s: Seq<char>, i: int, last: bool) -> Option<Seq<u8>> {
    let (a, b, c, d) = (b64_value(s[i]), b64_value(s[i + 1]), b64_value(s[i + 2]), b64_value(s[i + 3]));
    if a is None || b is None {
        None
    } else if c is Some && d is Some {
        Some(group_bytes(a->0, b->0, c->0, d->0))
    } else if last && c is Some && s[i + 3] == '=' {
        Some(group_bytes(a->0, b->0, c->0, 0).subrange(0, 2))
    } else if last && s[i + 2] == '=' && s[i + 3] == '=' {
        Some(group_bytes(a->0, b->0, 0, 0).subrange(0, 1))
    } else {
        None
    }
}

/// The bytes of `s[i..]`, read four characters at a time.
pub open spec fn decode_from(s: Seq<char>, i: int) -> Option<Seq<u8>>
    decreases s.len() - i,
{
    if i < 0 || i >= s.len() {
        Some(seq![])
    } else if s.len() - i < 4 {
        None
    } else {
        match decode_group(s, i, s.len() - i == 4) {
            Some(g) => match decode_from(s, i + 4) {
                Some(rest) => Some(g + rest),
                None => None,
            },
            None => None,
        }
    }
}

/// The bytes that base64 text `s` stands for, if it is base64.
pub open spec fn decode_spec(s: Seq<char>) -> Option<Seq<u8>> {
    if s.len() % 4 == 0 {
        decode_from(s, 0)
    } else {
        None
    }
}

fn b64_char(c: char) -> (r: Option<u8>)
    ensures
        match b64_value(c) {
            Some(v) => r == Some(v as u8),
            None => r is None,
        },
{
    if 'A' <= c && c <= 'Z' {
        Some((c as u32 - 'A' as u32) as u8)
    } else if 'a' <= c && c <= 'z' {
        Some((c as u32 - 'a' as u32 + 26) as u8)
    } else if '0' <= c && c <= '9' {
        Some((c as u32 - '0' as u32 + 52) as u8)
    } else if c == '+' {
        Some(62)
    } else if c == '/' {
        Some(63)
    } else {
        None
    }
}

/// Decodes base64 text; `None` when it is not base64 (see `decode_spec`).
pub fn decode(s: &str) -> (r: Option<Vec<u8>>)
    ensures
        match decode_spec(s@) {
            Some(b) => r matches Some(v) && v@ == b,
            None => r is None,
        },
{
    let n = s.unicode_len();
    if n % 4 != 0 {
        return None;
    }
    let mut out: Vec<u8> = Vec::new();
    let mut i: usize = 0;
    while i < n
        invariant
            n == s@.len(),
            n % 4 == 0,
            i <= n,
            i % 4 == 0,
            decode_from(s@, 0) == match decode_from(s@, i as int) {
                Some(rest) => Some(out@ + rest),
                None => None::<Seq<u8>>,
            },
        decreases n - i,
    {
        let last = n - i == 4;
        let a = b64_char(s.get_char(i));
        let b = b64_char(s.get_char(i + 1));
        let c2 = s.get_char(i + 2);
        let c3 = s.get_char(i + 3);
        let c = b64_char(c2);
        let d = b64_char(c3);
        let ghost g = decode_group(s@, i as int, last);
        let (a, b) = match (a, b) {
            (Some(a), Some(b)) => (a, b),
            _ => {
                assert(g is None);
                return None;
            },
        };
        let before = out.len();
        let x0: u8 = (a * 4 + b / 16) as u8;
        match (c, d) {
            (Some(c), Some(d)) => {
                out.push(x0);
                out.push(((b % 16) * 16 + c / 4) as u8);
                out.push(((c % 4) * 64 + d) as u8);
                proof {
                    assert(g == Some(group_bytes(a as int, b as int, c as int, d as int)));
                }
            },
            (Some(c), None) => {
                if last && c3 == '=' {
                    out.push(x0);
                    out.push(((b % 16) * 16 + c / 4) as u8);
                    proof {
                        assert(g == Some(group_bytes(a as int, b as int, c as int, 0).subrange(0, 2)));
                    }
                } else {
                    assert(g is None);
                    return None;
                }
            },
            _ => {
                if last && c2 == '=' && c3 == '=' {
                    out.push(x0);
                    proof {
                        assert(g == Some(group_bytes(a as int, b as int, 0, 0).subrange(0, 1)));
                    }
                } else {
                    assert(g is None);
                    return None;
                }
            },
        }
        proof {
            let gb = g->0;
            assert(out@ =~= out@.subrange(0, before as int) + gb);
        }
        i = i + 4;
    }
    Some(out)
}

} // verus!
