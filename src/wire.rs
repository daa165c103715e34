use crate::model::{links_view, Config, CreateInfoView, Instruction, Link, TokenInfo, TokenInfoError};
use borsh::BorshDeserialize;
use borsh::BorshSerialize;
use vstd::prelude::*;
use vstd::utf8::{encode_utf8, encode_utf8_decode_utf8};

verus! {

/// Little-endian bytes of a 32-bit count.
pub open spec fn u32_le(n: u32) -> Seq<u8> {
    seq![n as u8, (n >> 8u32) as u8, (n >> 16u32) as u8, (n >> 24u32) as u8]
}

/// Little-endian bytes of a 64-bit value.
pub open spec fn u64_le(n: u64) -> Seq<u8> {
    seq![
        n as u8,
        (n >> 8u64) as u8,
        (n >> 16u64) as u8,
        (n >> 24u64) as u8,
        (n >> 32u64) as u8,
        (n >> 40u64) as u8,
        (n >> 48u64) as u8,
        (n >> 56u64) as u8,
    ]
}

/// Little-endian two's complement bytes of a signed 64-bit value.
pub open spec fn i64_le(x: i64) -> Seq<u8> {
    u64_le(x as u64)
}

/// A string fits its 4-byte length prefix.
pub open spec fn string_fits(s: Seq<char>) -> bool {
    encode_utf8(s).len() <= u32::MAX
}

/// A string as its byte length, then its UTF-8 bytes.
pub open spec fn string_bytes(s: Seq<char>) -> Seq<u8> {
    u32_le(encode_utf8(s).len() as u32) + encode_utf8(s)
}

pub open spec fn link_fits(l: (Seq<char>, Seq<char>)) -> bool {
    string_fits(l.0) && string_fits(l.1)
}

/// A link as its label, then its url.
pub open spec fn link_bytes(l: (Seq<char>, Seq<char>)) -> Seq<u8> {
    string_bytes(l.0) + string_bytes(l.1)
}

/// The links one after the other, without their count.
pub open spec fn links_body(ls: Seq<(Seq<char>, Seq<char>)>) -> Seq<u8>
    decreases ls.len(),
{
    if ls.len() == 0 {
        Seq::empty()
    } else {
        link_bytes(ls[0]) + links_body(ls.skip(1))
    }
}

pub open spec fn links_fit(ls: Seq<(Seq<char>, Seq<char>)>) -> bool {
    &&& ls.len() <= u32::MAX
    &&& forall|i: int| 0 <= i < ls.len() ==> link_fits(#[trigger] ls[i])
}

/// The links as their count, then each link.
pub open spec fn links_bytes(ls: Seq<(Seq<char>, Seq<char>)>) -> Seq<u8> {
    u32_le(ls.len() as u32) + links_body(ls)
}

/// Every length in the request fits its prefix.
pub open spec fn instruction_fits(v: CreateInfoView) -> bool {
    &&& string_fits(v.description)
    &&& links_fit(v.links)
    &&& string_fits(v.icon_uri)
    &&& string_fits(v.header_uri)
}

/// Wire form of a creation request: tag 0, then its fields in order.
pub open spec fn instruction_bytes(v: CreateInfoView) -> Seq<u8> {
    seq![0u8] + string_bytes(v.description) + links_bytes(v.links) + string_bytes(v.icon_uri)
        + string_bytes(v.header_uri)
}

proof fn lemma_u32_le_injective(a: u32, b: u32)
    requires
        u32_le(a) == u32_le(b),
    ensures
        a == b,
{
    assert(u32_le(a)[0] == u32_le(b)[0]);
    assert(u32_le(a)[1] == u32_le(b)[1]);
    assert(u32_le(a)[2] == u32_le(b)[2]);
    assert(u32_le(a)[3] == u32_le(b)[3]);
    assert((a as u8 == b as u8 && (a >> 8u32) as u8 == (b >> 8u32) as u8 && (a >> 16u32) as u8
        == (b >> 16u32) as u8 && (a >> 24u32) as u8 == (b >> 24u32) as u8) ==> a == b)
        by (bit_vector);
}

/// A length-prefixed string is read back unambiguously.
proof fn lemma_string_unique(s1: Seq<char>, t1: Seq<u8>, s2: Seq<char>, t2: Seq<u8>)
    requires
        string_fits(s1),
        string_fits(s2),
        string_bytes(s1) + t1 == string_bytes(s2) + t2,
    ensures
        s1 == s2,
        t1 == t2,
{
    let x = string_bytes(s1) + t1;
    let n1 = encode_utf8(s1).len() as u32;
    let n2 = encode_utf8(s2).len() as u32;
    assert(x.subrange(0, 4) =~= u32_le(n1));
    assert(x.subrange(0, 4) =~= u32_le(n2));
    lemma_u32_le_injective(n1, n2);
    let n = n1 as int;
    assert(x.subrange(4, 4 + n) =~= encode_utf8(s1));
    assert(x.subrange(4, 4 + n) =~= encode_utf8(s2));
    encode_utf8_decode_utf8(s1);
    encode_utf8_decode_utf8(s2);
    assert(t1 =~= x.subrange(4 + n, x.len() as int));
    assert(t2 =~= x.subrange(4 + n, x.len() as int));
}

proof fn lemma_link_unique(
    l1: (Seq<char>, Seq<char>),
    t1: Seq<u8>,
    l2: (Seq<char>, Seq<char>),
    t2: Seq<u8>,
)
    requires
        link_fits(l1),
        link_fits(l2),
        link_bytes(l1) + t1 == link_bytes(l2) + t2,
    ensures
        l1 == l2,
        t1 == t2,
{
    assert(link_bytes(l1) + t1 =~= string_bytes(l1.0) + (string_bytes(l1.1) + t1));
    assert(link_bytes(l2) + t2 =~= string_bytes(l2.0) + (string_bytes(l2.1) + t2));
    lemma_string_unique(l1.0, string_bytes(l1.1) + t1, l2.0, string_bytes(l2.1) + t2);
    lemma_string_unique(l1.1, t1, l2.1, t2);
}

proof fn lemma_links_body_unique(
    l1: Seq<(Seq<char>, Seq<char>)>,
    t1: Seq<u8>,
    l2: Seq<(Seq<char>, Seq<char>)>,
    t2: Seq<u8>,
)
    requires
        links_fit(l1),
        links_fit(l2),
        l1.len() == l2.len(),
        links_body(l1) + t1 == links_body(l2) + t2,
    ensures
        l1 == l2,
        t1 == t2,
    decreases l1.len(),
{
    if l1.len() == 0 {
        assert(t1 =~= links_body(l1) + t1);
        assert(t2 =~= links_body(l2) + t2);
        assert(l1 =~= l2);
    } else {
        assert(link_fits(l1[0]));
        assert(link_fits(l2[0]));
        assert(links_body(l1) + t1 =~= link_bytes(l1[0]) + (links_body(l1.skip(1)) + t1));
        assert(links_body(l2) + t2 =~= link_bytes(l2[0]) + (links_body(l2.skip(1)) + t2));
        lemma_link_unique(l1[0], links_body(l1.skip(1)) + t1, l2[0], links_body(l2.skip(1)) + t2);
        assert forall|i: int| 0 <= i < l1.skip(1).len() implies link_fits(
            #[trigger] l1.skip(1)[i],
        ) by {
            assert(link_fits(l1[i + 1]));
        }
        assert forall|i: int| 0 <= i < l2.skip(1).len() implies link_fits(
            #[trigger] l2.skip(1)[i],
        ) by {
            assert(link_fits(l2[i + 1]));
        }
        lemma_links_body_unique(l1.skip(1), t1, l2.skip(1), t2);
        assert(l1 =~= seq![l1[0]] + l1.skip(1));
        assert(l2 =~= seq![l2[0]] + l2.skip(1));
    }
}

/// Appending a link appends its bytes.
proof fn lemma_links_body_push(ls: Seq<(Seq<char>, Seq<char>)>, l: (Seq<char>, Seq<char>))
    ensures
        links_body(ls.push(l)) == links_body(ls) + link_bytes(l),
    decreases ls.len(),
{
    if ls.len() == 0 {
        assert(ls.push(l).skip(1) =~= Seq::<(Seq<char>, Seq<char>)>::empty());
        assert(ls.push(l)[0] == l);
        assert(links_body(ls.push(l).skip(1)) == Seq::<u8>::empty());
        assert(links_body(ls.push(l)) =~= link_bytes(l) + Seq::<u8>::empty());
        assert(links_body(ls) + link_bytes(l) =~= link_bytes(l));
    } else {
        assert(ls.push(l).skip(1) =~= ls.skip(1).push(l));
        lemma_links_body_push(ls.skip(1), l);
        assert(links_body(ls.push(l)) =~= link_bytes(ls[0]) + links_body(ls.skip(1).push(l)));
        assert(links_body(ls) + link_bytes(l) =~= link_bytes(ls[0]) + (links_body(ls.skip(1))
            + link_bytes(l)));
    }
}

/// The wire form determines the request.
pub proof fn lemma_instruction_bytes_injective(v1: CreateInfoView, v2: CreateInfoView)
    requires
        instruction_fits(v1),
        instruction_fits(v2),
        instruction_bytes(v1) == instruction_bytes(v2),
    ensures
        v1 == v2,
{
    let x = instruction_bytes(v1);
    let t1 = links_bytes(v1.links) + string_bytes(v1.icon_uri) + string_bytes(v1.header_uri);
    let t2 = links_bytes(v2.links) + string_bytes(v2.icon_uri) + string_bytes(v2.header_uri);
    assert(x.skip(1) =~= string_bytes(v1.description) + t1);
    assert(instruction_bytes(v2).skip(1) =~= string_bytes(v2.description) + t2);
    lemma_string_unique(v1.description, t1, v2.description, t2);
    let r1 = links_body(v1.links) + string_bytes(v1.icon_uri) + string_bytes(v1.header_uri);
    let r2 = links_body(v2.links) + string_bytes(v2.icon_uri) + string_bytes(v2.header_uri);
    assert(t1 =~= u32_le(v1.links.len() as u32) + r1);
    assert(t2 =~= u32_le(v2.links.len() as u32) + r2);
    assert(t1.subrange(0, 4) =~= u32_le(v1.links.len() as u32));
    assert(t2.subrange(0, 4) =~= u32_le(v2.links.len() as u32));
    lemma_u32_le_injective(v1.links.len() as u32, v2.links.len() as u32);
    assert(r1 =~= t1.skip(4));
    assert(r2 =~= t2.skip(4));
    let s1 = string_bytes(v1.icon_uri) + string_bytes(v1.header_uri);
    let s2 = string_bytes(v2.icon_uri) + string_bytes(v2.header_uri);
    assert(r1 =~= links_body(v1.links) + s1);
    assert(r2 =~= links_body(v2.links) + s2);
    lemma_links_body_unique(v1.links, s1, v2.links, s2);
    lemma_string_unique(v1.icon_uri, string_bytes(v1.header_uri), v2.icon_uri, string_bytes(v2.header_uri));
    assert(string_bytes(v1.header_uri) + Seq::<u8>::empty() =~= string_bytes(v2.header_uri) + Seq::<u8>::empty());
    lemma_string_unique(v1.header_uri, Seq::<u8>::empty(), v2.header_uri, Seq::<u8>::empty());
}

/// Relies on borsh's `String::deserialize`: a 4-byte little-endian byte length, then
/// that many bytes, which must be valid UTF-8; the slice is left just after them.
#[verifier::external_body]
fn borsh_read_string(input: &[u8]) -> (r: Option<(String, usize)>)
    ensures
        match r {
            Some((s, rest)) => {
                &&& rest <= input@.len()
                &&& string_fits(s@)
                &&& input@ == string_bytes(s@) + input@.subrange(
                    input@.len() - rest,
                    input@.len() as int,
                )
            },
            None => forall|s: Seq<char>, t: Seq<u8>|
                string_fits(s) ==> input@ != #[trigger] (string_bytes(s) + t),
        },
{
    let mut rest: &[u8] = input;
    match String::deserialize(&mut rest) {
        Ok(s) => Some((s, rest.len())),
        Err(_) => None,
    }
}

/// Relies on borsh's `String::serialize` into a `Vec<u8>`: it appends the byte length
/// as 4 little-endian bytes, then the UTF-8 bytes, and fails only on a length over
/// `u32::MAX`.
#[verifier::external_body]
fn borsh_write_string(out: &mut Vec<u8>, s: &String)
    requires
        string_fits(s@),
    ensures
        final(out)@ == old(out)@ + string_bytes(s@),
{
    let _ = s.serialize(out);
}

/// Reads a length-prefixed string at `pos`.
fn read_string_at(data: &[u8], pos: usize) -> (r: Option<(String, usize)>)
    requires
        pos <= data@.len(),
    ensures
        match r {
            Some((s, np)) => {
                &&& pos <= np <= data@.len()
                &&& string_fits(s@)
                &&& data@.subrange(pos as int, np as int) == string_bytes(s@)
                &&& forall|x: Seq<char>, t: Seq<u8>|
                    string_fits(x) && data@.subrange(pos as int, data@.len() as int) == #[trigger] (
                    string_bytes(x) + t) ==> x == s@ && t == data@.subrange(
                        np as int,
                        data@.len() as int,
                    )
            },
            None => forall|x: Seq<char>, t: Seq<u8>|
                string_fits(x) ==> data@.subrange(pos as int, data@.len() as int) != #[trigger] (
                string_bytes(x) + t),
        },
{
    let len = data.len();
    let input = vstd::slice::slice_subrange(data, pos, len);
    match borsh_read_string(input) {
        None => None,
        Some((s, rest)) => {
            let np = len - rest;
            proof {
                let whole = data@.subrange(pos as int, len as int);
                assert(input@ == whole);
                assert(input@.subrange(input@.len() - rest, input@.len() as int) =~= data@.subrange(
                    np as int,
                    len as int,
                ));
                assert(whole.subrange(0, np - pos) =~= data@.subrange(pos as int, np as int));
                assert(whole.subrange(0, np - pos) =~= string_bytes(s@));
                assert forall|x: Seq<char>, t: Seq<u8>|
                    string_fits(x) && whole == #[trigger] (string_bytes(x) + t) implies x == s@
                    && t == data@.subrange(np as int, len as int) by {
                    lemma_string_unique(x, t, s@, data@.subrange(np as int, len as int));
                }
            }
            Some((s, np))
        },
    }
}

/// Reads a link, its label then its url, at `pos`.
fn read_link_at(data: &[u8], pos: usize) -> (r: Option<(Link, usize)>)
    requires
        pos <= data@.len(),
    ensures
        match r {
            Some((l, np)) => {
                &&& pos <= np <= data@.len()
                &&& link_fits(l@)
                &&& data@.subrange(pos as int, np as int) == link_bytes(l@)
                &&& forall|x: (Seq<char>, Seq<char>), t: Seq<u8>|
                    link_fits(x) && data@.subrange(pos as int, data@.len() as int) == #[trigger] (
                    link_bytes(x) + t) ==> x == l@ && t == data@.subrange(
                        np as int,
                        data@.len() as int,
                    )
            },
            None => forall|x: (Seq<char>, Seq<char>), t: Seq<u8>|
                link_fits(x) ==> data@.subrange(pos as int, data@.len() as int) != #[trigger] (
                link_bytes(x) + t),
        },
{
    let ghost whole = data@.subrange(pos as int, data@.len() as int);
    let first = read_string_at(data, pos);
    match first {
        None => {
            proof {
                assert forall|x: (Seq<char>, Seq<char>), t: Seq<u8>|
                    link_fits(x) implies whole != #[trigger] (link_bytes(x) + t) by {
                    assert(link_bytes(x) + t =~= string_bytes(x.0) + (string_bytes(x.1) + t));
                }
            }
            None
        },
        Some((label, p1)) => {
            let second = read_string_at(data, p1);
            match second {
                None => {
                    proof {
                        assert forall|x: (Seq<char>, Seq<char>), t: Seq<u8>|
                            link_fits(x) implies whole != #[trigger] (link_bytes(x) + t) by {
                            if whole == link_bytes(x) + t {
                                assert(link_bytes(x) + t =~= string_bytes(x.0) + (string_bytes(x.1)
                                    + t));
                                assert(data@.subrange(p1 as int, data@.len() as int)
                                    == string_bytes(x.1) + t);
                            }
                        }
                    }
                    None
                },
                Some((url, np)) => {
                    let l = Link { label, url };
                    proof {
                        assert(data@.subrange(pos as int, np as int) =~= data@.subrange(
                            pos as int,
                            p1 as int,
                        ) + data@.subrange(p1 as int, np as int));
                        assert(whole =~= data@.subrange(pos as int, p1 as int) + data@.subrange(
                            p1 as int,
                            data@.len() as int,
                        ));
                        assert(data@.subrange(p1 as int, data@.len() as int) =~= data@.subrange(
                            p1 as int,
                            np as int,
                        ) + data@.subrange(np as int, data@.len() as int));
                        assert(whole == string_bytes(l@.0) + data@.subrange(
                            p1 as int,
                            data@.len() as int,
                        ));
                        assert forall|x: (Seq<char>, Seq<char>), t: Seq<u8>|
                            link_fits(x) && whole == #[trigger] (link_bytes(x) + t) implies x == l@
                            && t == data@.subrange(np as int, data@.len() as int) by {
                            assert(link_bytes(x) + t =~= string_bytes(x.0) + (string_bytes(x.1)
                                + t));
                            assert(data@.subrange(p1 as int, data@.len() as int) == string_bytes(x.1) + t);
                        }
                    }
                    Some((l, np))
                },
            }
        },
    }
}

/// Reads a 4-byte little-endian count at `pos`.
fn read_u32_at(data: &[u8], pos: usize) -> (r: Option<u32>)
    requires
        pos <= data@.len(),
    ensures
        match r {
            Some(v) => pos + 4 <= data@.len() && data@.subrange(pos as int, pos + 4) == u32_le(v),
            None => pos + 4 > data@.len(),
        },
{
    if data.len() - pos < 4 {
        return None;
    }
    let b0 = data[pos];
    let b1 = data[pos + 1];
    let b2 = data[pos + 2];
    let b3 = data[pos + 3];
    let v: u32 = (b0 as u32) | ((b1 as u32) << 8u32) | ((b2 as u32) << 16u32) | ((b3 as u32)
        << 24u32);
    assert(v as u8 == b0 && (v >> 8u32) as u8 == b1 && (v >> 16u32) as u8 == b2 && (v >> 24u32) as u8
        == b3) by (bit_vector)
        requires
            v == (b0 as u32) | ((b1 as u32) << 8u32) | ((b2 as u32) << 16u32) | ((b3 as u32)
                << 24u32),
    ;
    assert(data@.subrange(pos as int, pos + 4) =~= u32_le(v));
    Some(v)
}

/// Reads `count` links at `pos`.
#[verifier::rlimit(30)]
fn read_links_at(data: &[u8], pos: usize, count: u32) -> (r: Option<(Vec<Link>, usize)>)
    requires
        pos <= data@.len(),
    ensures
        match r {
            Some((ls, np)) => {
                &&& pos <= np <= data@.len()
                &&& ls@.len() == count
                &&& links_fit(links_view(ls@))
                &&& data@.subrange(pos as int, np as int) == links_body(links_view(ls@))
                &&& forall|x: Seq<(Seq<char>, Seq<char>)>, t: Seq<u8>|
                    x.len() == count && links_fit(x) && data@.subrange(pos as int, data@.len() as int)
                        == #[trigger] (links_body(x) + t) ==> x == links_view(ls@) && t
                        == data@.subrange(np as int, data@.len() as int)
            },
            None => forall|x: Seq<(Seq<char>, Seq<char>)>, t: Seq<u8>|
                x.len() == count && links_fit(x) ==> data@.subrange(pos as int, data@.len() as int)
                    != #[trigger] (links_body(x) + t),
        },
{
    let len = data.len();
    let ghost d = data@;
    let ghost whole = d.subrange(pos as int, len as int);
    let ghost found = exists|x: Seq<(Seq<char>, Seq<char>)>, t: Seq<u8>|
        x.len() == count && links_fit(x) && whole == #[trigger] (links_body(x) + t);
    let ghost (wx, wt): (Seq<(Seq<char>, Seq<char>)>, Seq<u8>) = if found {
        choose|x: Seq<(Seq<char>, Seq<char>)>, t: Seq<u8>|
            x.len() == count && links_fit(x) && whole == #[trigger] (links_body(x) + t)
    } else {
        (Seq::empty(), Seq::empty())
    };
    let mut links: Vec<Link> = Vec::new();
    let mut p: usize = pos;
    let mut i: u32 = 0;
    proof {
        if found {
            assert(wx.skip(0) =~= wx);
        }
        assert(d.subrange(pos as int, p as int) =~= Seq::<u8>::empty());
        assert(links_view(links@) =~= Seq::<(Seq<char>, Seq<char>)>::empty());
    }
    while i < count
        invariant
            d == data@,
            len == d.len(),
            whole == d.subrange(pos as int, len as int),
            found == exists|x: Seq<(Seq<char>, Seq<char>)>, t: Seq<u8>|
                x.len() == count && links_fit(x) && whole == #[trigger] (links_body(x) + t),
            pos <= p <= len,
            i <= count,
            links@.len() == i,
            links_fit(links_view(links@)),
            d.subrange(pos as int, p as int) == links_body(links_view(links@)),
            found ==> {
                &&& wx.len() == count
                &&& links_fit(wx)
                &&& links_view(links@) == wx.take(i as int)
                &&& d.subrange(p as int, len as int) == links_body(wx.skip(i as int)) + wt
            },
        decreases count - i,
    {
        proof {
            if found {
                let tl = wx.skip(i as int);
                assert(link_fits(wx[i as int]));
                assert(tl.skip(1) =~= wx.skip(i + 1));
                assert(d.subrange(p as int, len as int) =~= link_bytes(wx[i as int]) + (links_body(
                    wx.skip(i + 1)) + wt));
            }
        }
        let (link, np) = match read_link_at(data, p) {
            Some(x) => x,
            None => {
                proof {
                    if found {
                        assert(d.subrange(p as int, len as int) == link_bytes(wx[i as int]) + (
                        links_body(wx.skip(i + 1)) + wt));
                        assert(false);
                    }
                    assert forall|x: Seq<(Seq<char>, Seq<char>)>, t: Seq<u8>|
                        x.len() == count && links_fit(x) implies whole != #[trigger] (links_body(x)
                        + t) by {
                        if whole == links_body(x) + t {
                            assert(found);
                        }
                    }
                }
                return None;
            },
        };
        proof {
            lemma_links_body_push(links_view(links@), link@);
            assert(links_view(links@.push(link)) =~= links_view(links@).push(link@));
            assert(d.subrange(pos as int, np as int) =~= d.subrange(pos as int, p as int)
                + d.subrange(p as int, np as int));
            if found {
                assert(wx.take(i + 1) =~= wx.take(i as int).push(wx[i as int]));
            }
        }
        links.push(link);
        p = np;
        i = i + 1;
    }
    proof {
        if found {
            assert(wx.skip(i as int) =~= Seq::<(Seq<char>, Seq<char>)>::empty());
            assert(links_body(wx.skip(i as int)) =~= Seq::<u8>::empty());
            assert(wx.take(i as int) =~= wx);
        }
        assert(whole =~= d.subrange(pos as int, p as int) + d.subrange(p as int, len as int));
        assert forall|x: Seq<(Seq<char>, Seq<char>)>, t: Seq<u8>|
            x.len() == count && links_fit(x) && whole == #[trigger] (links_body(x) + t) implies x
            == links_view(links@) && t == d.subrange(p as int, len as int) by {
            lemma_links_body_unique(x, t, links_view(links@), d.subrange(p as int, len as int));
        }
    }
    Some((links, p))
}

/// Reads the icon and header references, which must end the input.
fn read_uris_at(data: &[u8], pos: usize) -> (r: Option<(String, String)>)
    requires
        pos <= data@.len(),
    ensures
        match r {
            Some((icon, header)) => {
                &&& string_fits(icon@)
                &&& string_fits(header@)
                &&& data@.subrange(pos as int, data@.len() as int) == string_bytes(icon@)
                    + string_bytes(header@)
            },
            None => forall|x: Seq<char>, y: Seq<char>|
                string_fits(x) && string_fits(y) ==> data@.subrange(pos as int, data@.len() as int)
                    != #[trigger] (string_bytes(x) + string_bytes(y)),
        },
{
    let len = data.len();
    let ghost d = data@;
    let (icon, p2) = match read_string_at(data, pos) {
        Some(x) => x,
        None => {
            return None;
        },
    };
    let (header, p3) = match read_string_at(data, p2) {
        Some(x) => x,
        None => {
            proof {
                assert forall|x: Seq<char>, y: Seq<char>|
                    string_fits(x) && string_fits(y) implies d.subrange(pos as int, len as int)
                    != #[trigger] (string_bytes(x) + string_bytes(y)) by {
                    if d.subrange(pos as int, len as int) == string_bytes(x) + string_bytes(y) {
                        assert(d.subrange(p2 as int, len as int) == string_bytes(y)
                            + Seq::<u8>::empty());
                    }
                }
            }
            return None;
        },
    };
    if p3 != len {
        proof {
            assert forall|x: Seq<char>, y: Seq<char>|
                string_fits(x) && string_fits(y) implies d.subrange(pos as int, len as int)
                != #[trigger] (string_bytes(x) + string_bytes(y)) by {
                if d.subrange(pos as int, len as int) == string_bytes(x) + string_bytes(y) {
                    assert(d.subrange(p2 as int, len as int) == string_bytes(y)
                        + Seq::<u8>::empty());
                    assert(d.subrange(p3 as int, len as int).len() == 0);
                }
            }
        }
        return None;
    }
    assert(d.subrange(pos as int, len as int) =~= d.subrange(pos as int, p2 as int) + d.subrange(
        p2 as int,
        len as int,
    ));
    Some((icon, header))
}

/// Decodes a request. It is refused exactly when no request has these bytes as its
/// wire form (wrong tag, truncated field, invalid UTF-8, trailing bytes).
#[verifier::spinoff_prover]
#[verifier::rlimit(50)]
pub fn decode_instruction(data: &[u8]) -> (r: Result<Instruction, TokenInfoError>)
    ensures
        match r {
            Ok(i) => instruction_fits(i@) && instruction_bytes(i@) == data@,
            Err(e) => e == TokenInfoError::InvalidInstruction && forall|v: CreateInfoView|
                instruction_fits(v) ==> #[trigger] instruction_bytes(v) != data@,
        },
{
    let ghost w: Option<CreateInfoView> = if exists|v: CreateInfoView|
        instruction_fits(v) && instruction_bytes(v) == data@ {
        Some(choose|v: CreateInfoView| instruction_fits(v) && instruction_bytes(v) == data@)
    } else {
        None
    };
    let len = data.len();
    let ghost d = data@;
    if len == 0 || data[0] != 0 {
        proof {
            if w is Some {
                assert(instruction_bytes(w->0)[0] == 0);
            }
        }
        return Err(TokenInfoError::InvalidInstruction);
    }
    proof {
        if w is Some {
            let v = w->0;
            assert(d.subrange(1, len as int) =~= string_bytes(v.description) + (links_bytes(v.links)
                + string_bytes(v.icon_uri) + string_bytes(v.header_uri)));
        }
    }
    let (description, p1) = match read_string_at(data, 1) {
        Some(x) => x,
        None => {
            return Err(TokenInfoError::InvalidInstruction);
        },
    };
    proof {
        if w is Some {
            let v = w->0;
            assert(d.subrange(p1 as int, len as int) =~= u32_le(v.links.len() as u32) + (links_body(
                v.links) + string_bytes(v.icon_uri) + string_bytes(v.header_uri)));
        }
    }
    let count = match read_u32_at(data, p1) {
        Some(c) => c,
        None => {
            proof {
                if w is Some {
                    assert(d.subrange(p1 as int, len as int).subrange(0, 4) =~= d.subrange(
                        p1 as int,
                        p1 + 4,
                    ));
                }
            }
            return Err(TokenInfoError::InvalidInstruction);
        },
    };
    let lstart: usize = p1 + 4;
    proof {
        if w is Some {
            let v = w->0;
            let rest = d.subrange(p1 as int, len as int);
            assert(rest.subrange(0, 4) =~= d.subrange(p1 as int, p1 + 4));
            lemma_u32_le_injective(count, v.links.len() as u32);
            assert(d.subrange(lstart as int, len as int) =~= rest.skip(4));
            assert(d.subrange(lstart as int, len as int) =~= links_body(v.links) + (string_bytes(
                v.icon_uri) + string_bytes(v.header_uri)));
        }
    }
    let (links, pos) = match read_links_at(data, lstart, count) {
        Some(x) => x,
        None => {
            return Err(TokenInfoError::InvalidInstruction);
        },
    };
    let (icon_uri, header_uri) = match read_uris_at(data, pos) {
        Some(x) => x,
        None => {
            return Err(TokenInfoError::InvalidInstruction);
        },
    };
    let r = Instruction::CreateInfo { description, links, icon_uri, header_uri };
    proof {
        let v = r@;
        assert(d =~= seq![0u8] + d.subrange(1, p1 as int) + d.subrange(p1 as int, lstart as int)
            + d.subrange(lstart as int, pos as int) + d.subrange(pos as int, len as int));
        assert(d.subrange(p1 as int, lstart as int) == u32_le(v.links.len() as u32));
        assert(d =~= instruction_bytes(v));
    }
    Ok(r)
}

/// Wire form of a version-1 record body: tag 0, then its fields in order.
pub open spec fn token_info_v1_bytes(
    mint: Seq<char>,
    description: Seq<char>,
    links: Seq<(Seq<char>, Seq<char>)>,
    icon: Seq<char>,
    header: Seq<char>,
    created: i64,
    updated: i64,
) -> Seq<u8> {
    seq![0u8] + string_bytes(mint) + string_bytes(description) + links_bytes(links) + string_bytes(
        icon,
    ) + string_bytes(header) + i64_le(created) + i64_le(updated)
}

pub open spec fn token_info_bytes(t: TokenInfo) -> Seq<u8> {
    match t {
        TokenInfo::V1(v) => token_info_v1_bytes(
            v.mint@,
            v.description@,
            links_view(v.links@),
            v.images.icon@,
            v.images.header@,
            v.creation_timestamp,
            v.update_timestamp,
        ),
    }
}

/// Every length in the record fits its prefix.
pub open spec fn token_info_fits(t: TokenInfo) -> bool {
    match t {
        TokenInfo::V1(v) => {
            &&& string_fits(v.mint@)
            &&& string_fits(v.description@)
            &&& links_fit(links_view(v.links@))
            &&& string_fits(v.images.icon@)
            &&& string_fits(v.images.header@)
        },
    }
}

/// A persisted record: magic byte, version byte, then the record body.
pub open spec fn persisted_bytes(c: Config, t: TokenInfo) -> Seq<u8> {
    seq![c.magic, c.version] + token_info_bytes(t)
}

fn fits_u32(s: &String) -> (r: bool)
    ensures
        r == string_fits(s@),
{
    let n = s.as_str().as_bytes().len();
    n as u64 <= u32::MAX as u64
}

fn write_u32(out: &mut Vec<u8>, n: u32)
    ensures
        final(out)@ == old(out)@ + u32_le(n),
{
    out.push(n as u8);
    out.push((n >> 8u32) as u8);
    out.push((n >> 16u32) as u8);
    out.push((n >> 24u32) as u8);
    assert(final(out)@ =~= old(out)@ + u32_le(n));
}

fn write_i64(out: &mut Vec<u8>, x: i64)
    ensures
        final(out)@ == old(out)@ + i64_le(x),
{
    let n: u64 = x as u64;
    out.push(n as u8);
    out.push((n >> 8u64) as u8);
    out.push((n >> 16u64) as u8);
    out.push((n >> 24u64) as u8);
    out.push((n >> 32u64) as u8);
    out.push((n >> 40u64) as u8);
    out.push((n >> 48u64) as u8);
    out.push((n >> 56u64) as u8);
    assert(final(out)@ =~= old(out)@ + i64_le(x));
}

/// Appends the links, their count first.
fn write_links(out: &mut Vec<u8>, links: &Vec<Link>) -> (ok: bool)
    ensures
        ok == links_fit(links_view(links@)),
        ok ==> final(out)@ == old(out)@ + links_bytes(links_view(links@)),
{
    let ghost lv = links_view(links@);
    let n = links.len();
    if n as u64 > u32::MAX as u64 {
        return false;
    }
    let mut i: usize = 0;
    while i < n
        invariant
            n == links@.len(),
            lv == links_view(links@),
            i <= n,
            forall|j: int| 0 <= j < i ==> link_fits(#[trigger] lv[j]),
        decreases n - i,
    {
        if !fits_u32(&links[i].label) || !fits_u32(&links[i].url) {
            assert(!link_fits(lv[i as int]));
            return false;
        }
        i = i + 1;
    }
    write_u32(out, n as u32);
    let ghost start = out@;
    i = 0;
    while i < n
        invariant
            n == links@.len(),
            lv == links_view(links@),
            links_fit(lv),
            i <= n,
            out@ == start + links_body(lv.take(i as int)),
        decreases n - i,
    {
        proof {
            assert(link_fits(lv[i as int]));
            lemma_links_body_push(lv.take(i as int), lv[i as int]);
            assert(lv.take(i + 1) =~= lv.take(i as int).push(lv[i as int]));
        }
        borsh_write_string(out, &links[i].label);
        borsh_write_string(out, &links[i].url);
        i = i + 1;
    }
    assert(lv.take(n as int) =~= lv);
    assert(out@ =~= old(out)@ + links_bytes(lv));
    true
}

/// Encodes a record for storage: magic byte, version byte, then the record body;
/// none where a length does not fit its prefix.
pub fn encode_record(config: &Config, info: &TokenInfo) -> (r: Option<Vec<u8>>)
    ensures
        match r {
            Some(b) => token_info_fits(*info) && b@ == persisted_bytes(*config, *info),
            None => !token_info_fits(*info),
        },
{
    let TokenInfo::V1(v) = info;
    if !fits_u32(&v.mint) || !fits_u32(&v.description) || !fits_u32(&v.images.icon)
        || !fits_u32(&v.images.header) {
        return None;
    }
    let mut out: Vec<u8> = Vec::new();
    out.push(config.magic);
    out.push(config.version);
    out.push(0u8);
    borsh_write_string(&mut out, &v.mint);
    borsh_write_string(&mut out, &v.description);
    let ghost before_links = out@;
    if !write_links(&mut out, &v.links) {
        return None;
    }
    borsh_write_string(&mut out, &v.images.icon);
    borsh_write_string(&mut out, &v.images.header);
    write_i64(&mut out, v.creation_timestamp);
    write_i64(&mut out, v.update_timestamp);
    assert(out@ =~= persisted_bytes(*config, *info));
    Some(out)
}

} // verus!
