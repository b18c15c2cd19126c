//! Just enough of the DNS wire format for the network policy: the names a
//! query asks about, and the addresses an answer gives.
use vstd::prelude::*;

use crate::addr::IpAddress;

verus! {

/// What `String::from_utf8_lossy` makes of `bytes`.
pub uninterp spec fn utf8_lossy(bytes: Seq<u8>) -> Seq<char>;

/// `bytes` as text, each invalid sequence replaced by U+FFFD.
#[verifier::external_body]
fn lossy_text(bytes: &[u8]) -> (s: String)
    ensures
        s@ == utf8_lossy(bytes@),
{
    String::from_utf8_lossy(bytes).into_owned()
}

/// The big-endian 16-bit value at `i`.
pub open spec fn be16(data: Seq<u8>, i: int) -> int {
    data[i] as int * 256 + data[i + 1] as int
}

/// The most compression pointers a name may follow.
pub const MAX_HOPS: u32 = 128;

/// The name at `p`, read label by label and through compression pointers,
/// with `name` read so far: the name, and the position just past it where
/// it started (past the first pointer when one was followed, recorded in
/// `save`).  `None` for a name that runs off the end, or follows more than
/// [`MAX_HOPS`] pointers.
pub open spec fn read_name(
    data: Seq<u8>,
    p: int,
    hops: int,
    save: Option<int>,
    name: Seq<char>,
) -> Option<(Seq<char>, int)>
    decreases 129 - hops, data.len() - p,
{
    if p < 0 || p >= data.len() || hops < 0 || hops > 128 {
        None
    } else {
        let len = data[p] as int;
        if len == 0 {
            Some(
                (
                    name,
                    match save {
                        Some(s) => s,
                        None => p + 1,
                    },
                ),
            )
        } else if len >= 0xc0 {
            if p + 1 >= data.len() || hops + 1 > 128 {
                None
            } else {
                let offset = (len - 0xc0) * 256 + data[p + 1] as int;
                let saved = match save {
                    Some(s) => Some(s),
                    None => Some(p + 2),
                };
                read_name(data, offset, hops + 1, saved, name)
            }
        } else {
            if p + 1 + len > data.len() {
                None
            } else {
                let label = utf8_lossy(data.subrange(p + 1, p + 1 + len));
                let named = if name.len() == 0 {
                    label
                } else {
                    name + seq!['.'] + label
                };
                read_name(data, p + 1 + len, hops, save, named)
            }
        }
    }
}

/// The name at `pos`, and where the record goes on after it.
pub open spec fn name_at(data: Seq<u8>, pos: int) -> Option<(Seq<char>, int)> {
    read_name(data, pos, 0, None, seq![])
}

/// Read a DNS name at `pos`, advancing `pos` past it.
pub fn dns_read_name(data: &[u8], pos: &mut usize) -> (r: Option<String>)
    ensures
        match name_at(data@, *old(pos) as int) {
            Some((n, end)) => r matches Some(s) && s@ == n && *final(pos) as int == end,
            None => r is None && *final(pos) == *old(pos),
        },
{
    let mut name = String::new();
    let mut p: usize = *pos;
    let mut hops: u32 = 0;
    let mut save: Option<usize> = None;
    loop
        invariant
            name_at(data@, *old(pos) as int) == read_name(
                data@,
                p as int,
                hops as int,
                match save {
                    Some(s) => Some(s as int),
                    None => None,
                },
                name@,
            ),
            hops <= 128,
            *pos == *old(pos),
            save matches Some(s) ==> s <= data.len(),
        decreases 129 - hops, data.len() - p,
    {
        if p >= data.len() {
            return None;
        }
        let len = data[p] as usize;
        if len == 0 {
            let end = match save {
                Some(s) => s,
                None => p + 1,
            };
            *pos = end;
            return Some(name);
        }
        if len >= 0xc0 {
            if p + 1 >= data.len() {
                return None;
            }
            hops = hops + 1;
            if hops > MAX_HOPS {
                return None;
            }
            let offset = (len - 0xc0) * 256 + data[p + 1] as usize;
            if save.is_none() {
                save = Some(p + 2);
            }
            p = offset;
        } else {
            if len > data.len() - (p + 1) {
                return None;
            }
            let bytes = &data[p + 1..p + 1 + len];
            assert(bytes@ =~= data@.subrange(p + 1, p + 1 + len));
            let label = lossy_text(bytes);
            let ghost before = name@;
            if !name.as_str().is_empty() {
                crate::text::push_char(&mut name, '.');
            }
            name.append(label.as_str());
            assert(name@ =~= (if before.len() == 0 {
                label@
            } else {
                before + seq!['.'] + label@
            }));
            p = p + 1 + len;
        }
    }
}


/// The names of `n` questions from `pos` on, each followed by its type and
/// class; `None` when one does not parse or is cut short.
pub open spec fn questions(data: Seq<u8>, pos: int, n: nat) -> Option<Seq<Seq<char>>>
    decreases n,
{
    if n == 0 {
        Some(seq![])
    } else {
        match name_at(data, pos) {
            None => None,
            Some((name, end)) => if end + 4 > data.len() {
                None
            } else {
                match questions(data, end + 4, (n - 1) as nat) {
                    None => None,
                    Some(rest) => Some(seq![name] + rest),
                }
            },
        }
    }
}

/// The names a DNS message asks about, or `None` if it is not a
/// well-formed standard query: a header that says query (not response)
/// and opcode 0, at least one question, and every question name parses.
pub open spec fn question_names(data: Seq<u8>) -> Option<Seq<Seq<char>>> {
    if data.len() < 12 {
        None
    } else {
        let flags = be16(data, 2);
        if flags >= 0x8000 || (flags / 2048) % 16 != 0 || be16(data, 4) == 0 {
            None
        } else {
            questions(data, 12, be16(data, 4) as nat)
        }
    }
}

pub open spec fn strings_view(v: Seq<String>) -> Seq<Seq<char>> {
    v.map_values(|s: String| s@)
}

/// The names a DNS query asks about (see [`question_names`]).
pub fn dns_question_names(data: &[u8]) -> (r: Option<Vec<String>>)
    ensures
        match question_names(data@) {
            Some(names) => r matches Some(v) && strings_view(v@) == names,
            None => r is None,
        },
{
    if data.len() < 12 {
        return None;
    }
    let flags = data[2] as u32 * 256 + data[3] as u32;
    if flags >= 0x8000 || (flags / 2048) % 16 != 0 {
        return None;
    }
    let qdcount = data[4] as u32 * 256 + data[5] as u32;
    if qdcount == 0 {
        return None;
    }
    let mut pos: usize = 12;
    let mut names: Vec<String> = Vec::new();
    let mut k: u32 = 0;
    while k < qdcount
        invariant
            k <= qdcount,
            qdcount == be16(data@, 4),
            pos <= data.len(),
            question_names(data@) == (match questions(data@, pos as int, (qdcount - k) as nat) {
                None => None,
                Some(rest) => Some(strings_view(names@) + rest),
            }),
        decreases qdcount - k,
    {
        let ghost before = names@;
        let name = match dns_read_name(data, &mut pos) {
            Some(n) => n,
            None => return None,
        };
        if pos > data.len() || data.len() - pos < 4 {
            return None;
        }
        pos = pos + 4;
        names.push(name);
        proof {
            assert(strings_view(names@) =~= strings_view(before) + seq![name@]);
        }
        k += 1;
        proof {
            let ghost rest = questions(data@, pos as int, (qdcount - k) as nat);
            if let Some(r) = rest {
                assert(strings_view(before) + (seq![name@] + r) =~= strings_view(names@) + r);
            }
        }
    }
    proof {
        assert(strings_view(names@) + seq![] =~= strings_view(names@));
    }
    Some(names)
}

/// The address a resource record's data holds: an A record's four bytes,
/// an AAAA record's sixteen; `None` for any other record.
pub open spec fn record_ip(data: Seq<u8>, rtype: int, at: int, rdlen: int) -> Option<IpAddress> {
    if rtype == 1 && rdlen == 4 {
        Some(IpAddress::V4(be_value(data.subrange(at, at + 4)) as u32))
    } else if rtype == 28 && rdlen == 16 {
        Some(IpAddress::V6(be_value(data.subrange(at, at + 16)) as u128))
    } else {
        None
    }
}

/// Bytes as one big-endian number.
pub open spec fn be_value(bytes: Seq<u8>) -> nat
    decreases bytes.len(),
{
    if bytes.len() == 0 {
        0
    } else {
        be_value(bytes.drop_last()) * 256 + bytes.last() as nat
    }
}

/// The addresses of `n` answer records from `pos` on, up to the first
/// that does not parse.
pub open spec fn answer_ips(data: Seq<u8>, pos: int, n: nat) -> Seq<IpAddress>
    decreases n,
{
    if n == 0 {
        seq![]
    } else {
        match name_at(data, pos) {
            None => seq![],
            Some((_, end)) => if end + 10 > data.len() {
                seq![]
            } else {
                let rtype = be16(data, end);
                let rdlen = be16(data, end + 8);
                let at = end + 10;
                if at + rdlen > data.len() {
                    seq![]
                } else {
                    let here = match record_ip(data, rtype, at, rdlen) {
                        Some(ip) => seq![ip],
                        None => seq![],
                    };
                    here + answer_ips(data, at + rdlen, (n - 1) as nat)
                }
            },
        }
    }
}

proof fn lemma_be_value_step(bytes: Seq<u8>, k: int)
    requires
        0 <= k < bytes.len(),
    ensures
        be_value(bytes.subrange(0, k + 1)) == be_value(bytes.subrange(0, k)) * 256
            + bytes[k] as nat,
{
    assert(bytes.subrange(0, k + 1).drop_last() =~= bytes.subrange(0, k));
}

proof fn lemma_pow_256_16()
    ensures
        vstd::arithmetic::power::pow(256, 16) == 0x1_0000_0000_0000_0000_0000_0000_0000_0000,
{
    reveal_with_fuel(vstd::arithmetic::power::pow, 17);
}

/// `n` bytes from `at`, as one big-endian number.
fn read_be(data: &[u8], at: usize, n: usize) -> (x: u128)
    requires
        n <= 16,
        at + n <= data.len(),
    ensures
        x as nat == be_value(data@.subrange(at as int, at + n)),
{
    let mut x: u128 = 0;
    let mut k: usize = 0;
    proof {
        vstd::arithmetic::power::lemma_pow0(256);
        assert(data@.subrange(at as int, at as int) =~= Seq::<u8>::empty());
    }
    while k < n
        invariant
            k <= n <= 16,
            at + n <= data.len(),
            x as nat == be_value(data@.subrange(at as int, at + k)),
            x < vstd::arithmetic::power::pow(256, k as nat),
        decreases n - k,
    {
        proof {
            lemma_be_value_step(data@.subrange(at as int, at + n), k as int);
            assert(data@.subrange(at as int, at + n).subrange(0, k + 1) =~= data@.subrange(at as int, at + k + 1));
            assert(data@.subrange(at as int, at + n).subrange(0, k as int) =~= data@.subrange(at as int, at + k));
            vstd::arithmetic::power::lemma_pow_adds(256, k as nat, 1);
            vstd::arithmetic::power::lemma_pow1(256);
            vstd::arithmetic::power::lemma_pow_increases(256, (k + 1) as nat, 16);
            lemma_pow_256_16();
            let p = vstd::arithmetic::power::pow(256, k as nat);
            let b = data@[at + k] as int;
            assert(x * 256 + b < p * 256) by (nonlinear_arith)
                requires x < p, 0 <= b < 256;
        }
        x = x * 256 + data[at + k] as u128;
        k += 1;
    }
    x
}

/// The addresses the answers of a DNS response give, when its question is
/// one of the names `wanted` accepts (per [`crate::net_policy::names_contain`]
/// of the name in lower case); nothing for anything else.
pub open spec fn response_ips(data: Seq<u8>, hostnames: Seq<Seq<char>>) -> Seq<IpAddress> {
    if data.len() < 12 || be16(data, 2) < 0x8000 || be16(data, 4) == 0 || be16(data, 6) == 0 {
        seq![]
    } else {
        match name_at(data, 12) {
            None => seq![],
            Some((qname, end)) => if end + 4 > data.len() || !crate::net_policy::spec_names_contain(
                hostnames,
                unicode_lowercase(qname),
            ) {
                seq![]
            } else {
                answer_ips(data, end + 4, be16(data, 6) as nat)
            },
        }
    }
}

/// What `str::to_lowercase` makes of `s`.
pub uninterp spec fn unicode_lowercase(s: Seq<char>) -> Seq<char>;

/// `s` in lower case, by the Unicode rules.
#[verifier::external_body]
pub(crate) fn to_lowercase(s: &str) -> (r: String)
    ensures
        r@ == unicode_lowercase(s@),
{
    s.to_lowercase()
}

/// The addresses a DNS response gives for a question about one of
/// `hostnames` (see [`response_ips`]).
pub fn dns_response_ips(data: &[u8], hostnames: &Vec<String>) -> (r: Vec<IpAddress>)
    ensures
        r@ == response_ips(data@, strings_view(hostnames@)),
{
    let mut out: Vec<IpAddress> = Vec::new();
    if data.len() < 12 {
        return out;
    }
    let flags = data[2] as u32 * 256 + data[3] as u32;
    if flags < 0x8000 {
        return out;
    }
    let qdcount = data[4] as u32 * 256 + data[5] as u32;
    let ancount = data[6] as u32 * 256 + data[7] as u32;
    if qdcount == 0 || ancount == 0 {
        return out;
    }
    let mut pos: usize = 12;
    let qname = match dns_read_name(data, &mut pos) {
        Some(n) => n,
        None => return out,
    };
    if pos > data.len() || data.len() - pos < 4 {
        return out;
    }
    pos = pos + 4;
    let lower = to_lowercase(qname.as_str());
    if !crate::net_policy::names_contain(hostnames, lower.as_str()) {
        return out;
    }
    let mut k: u32 = 0;
    while k < ancount
        invariant
            k <= ancount,
            ancount == be16(data@, 6),
            pos <= data.len(),
            response_ips(data@, strings_view(hostnames@)) == out@ + answer_ips(
                data@,
                pos as int,
                (ancount - k) as nat,
            ),
        decreases ancount - k,
    {
        let ghost before = out@;
        let ghost at_pos = pos;
        if dns_read_name(data, &mut pos).is_none() {
            assert(out@ + seq![] =~= out@);
            return out;
        }
        if pos > data.len() || data.len() - pos < 10 {
            assert(out@ + seq![] =~= out@);
            return out;
        }
        let rtype = data[pos] as u32 * 256 + data[pos + 1] as u32;
        let rdlen = data[pos + 8] as usize * 256 + data[pos + 9] as usize;
        pos = pos + 10;
        if rdlen > data.len() - pos {
            assert(out@ + seq![] =~= out@);
            return out;
        }
        if rtype == 1 && rdlen == 4 {
            let x = read_be(data, pos, 4);
            out.push(IpAddress::V4(x as u32));
        } else if rtype == 28 && rdlen == 16 {
            let x = read_be(data, pos, 16);
            out.push(IpAddress::V6(x));
        }
        pos = pos + rdlen;
        k += 1;
        proof {
            let ghost rest = answer_ips(data@, pos as int, (ancount - k) as nat);
            let ghost here = match record_ip(data@, rtype as int, pos - rdlen, rdlen as int) {
                Some(ip) => seq![ip],
                None => seq![],
            };
            assert(out@ =~= before + here);
            assert(before + (here + rest) =~= out@ + rest);
        }
    }
    assert(out@ + seq![] =~= out@);
    out
}
} // verus!
