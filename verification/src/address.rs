//! The endpoint address blob: a self-describing text form of the node
//! identifier, its direct socket addresses and its relay URLs, which an
//! embedder copies between peers.  The form is brace-and-quote shaped and
//! starts with `{`, which is how a blob is told apart from a bare node
//! identifier.  Strings are quoted with backslash escaping of quotes and
//! backslashes, so any address round-trips.
use vstd::prelude::*;

verus! {

/// An endpoint contact descriptor.
#[derive(Debug, Clone, PartialEq)]
pub struct EndpointAddress {
    /// The peer's public identifier.
    pub node_id: String,
    /// Direct socket addresses, zero or more.
    pub direct_addresses: Vec<String>,
    /// Relay URLs, zero or more.
    pub relay_urls: Vec<String>,
}

pub struct EndpointAddressV {
    pub node_id: Seq<char>,
    pub direct_addresses: Seq<Seq<char>>,
    pub relay_urls: Seq<Seq<char>>,
}

impl View for EndpointAddress {
    type V = EndpointAddressV;

    open spec fn view(&self) -> EndpointAddressV {
        EndpointAddressV {
            node_id: self.node_id@,
            direct_addresses: self.direct_addresses@.map_values(|s: String| s@),
            relay_urls: self.relay_urls@.map_values(|s: String| s@),
        }
    }
}

// ---------------------------------------------------------------------------
// Encoding at the character level.
// ---------------------------------------------------------------------------
/// Escape a string for quoting: a backslash before every quote or
/// backslash.
pub open spec fn esc(s: Seq<char>) -> Seq<char>
    decreases s.len(),
{
    if s.len() == 0 {
        Seq::empty()
    } else {
        let c = s[0];
        let head: Seq<char> = if c == '"' || c == '\\' {
            seq!['\\', c]
        } else {
            seq![c]
        };
        head + esc(s.drop_first())
    }
}

/// A quoted, escaped string.
pub open spec fn quoted(s: Seq<char>) -> Seq<char> {
    seq!['"'] + esc(s) + seq!['"']
}

/// The inside of a list: quoted strings separated by commas.
pub open spec fn list_inner(l: Seq<Seq<char>>) -> Seq<char>
    decreases l.len(),
{
    if l.len() == 0 {
        Seq::empty()
    } else if l.len() == 1 {
        quoted(l[0])
    } else {
        quoted(l[0]) + seq![','] + list_inner(l.drop_first())
    }
}

/// A bracketed list of quoted strings.
pub open spec fn list_enc(l: Seq<Seq<char>>) -> Seq<char> {
    seq!['['] + list_inner(l) + seq![']']
}

/// The whole blob.
pub open spec fn addr_enc(a: EndpointAddressV) -> Seq<char> {
    "{\"id\":"@ + quoted(a.node_id) + ",\"direct\":"@ + list_enc(a.direct_addresses)
        + ",\"relays\":"@ + list_enc(a.relay_urls) + "}"@
}

// ---------------------------------------------------------------------------
// Decoding at the character level.
// ---------------------------------------------------------------------------
/// Parse the remainder of a quoted string up to and including the closing
/// quote, undoing the escaping; returns the string and the characters used.
pub open spec fn esc_dec(s: Seq<char>) -> Option<(Seq<char>, int)>
    decreases s.len(),
{
    if s.len() == 0 {
        None
    } else if s[0] == '"' {
        Some((Seq::empty(), 1))
    } else if s[0] == '\\' {
        if s.len() >= 2 {
            match esc_dec(s.subrange(2, s.len() as int)) {
                Some((t, u)) => Some((seq![s[1]] + t, 2 + u)),
                None => None,
            }
        } else {
            None
        }
    } else {
        match esc_dec(s.subrange(1, s.len() as int)) {
            Some((t, u)) => Some((seq![s[0]] + t, 1 + u)),
            None => None,
        }
    }
}

/// Parse a quoted string from the front of `s`.
pub open spec fn quoted_dec(s: Seq<char>) -> Option<(Seq<char>, int)> {
    if s.len() >= 1 && s[0] == '"' {
        match esc_dec(s.subrange(1, s.len() as int)) {
            Some((t, u)) => Some((t, 1 + u)),
            None => None,
        }
    } else {
        None
    }
}

/// Parse list items after the first: `,` then a quoted string, repeated,
/// ending at `]` (which is consumed).
pub open spec fn list_items_dec(s: Seq<char>) -> Option<(Seq<Seq<char>>, int)>
    decreases s.len(),
{
    if s.len() >= 1 && s[0] == ']' {
        Some((Seq::empty(), 1))
    } else if s.len() >= 1 && s[0] == ',' {
        match quoted_dec(s.subrange(1, s.len() as int)) {
            Some((t, u)) => if 0 < u <= s.len() - 1 {
                match list_items_dec(s.subrange(1 + u, s.len() as int)) {
                    Some((ts, u2)) => Some((seq![t] + ts, 1 + u + u2)),
                    None => None,
                }
            } else {
                None
            },
            None => None,
        }
    } else {
        None
    }
}

/// Parse a bracketed list of quoted strings from the front of `s`.
pub open spec fn list_dec(s: Seq<char>) -> Option<(Seq<Seq<char>>, int)> {
    if s.len() >= 1 && s[0] == '[' {
        if s.len() >= 2 && s[1] == ']' {
            Some((Seq::empty(), 2))
        } else {
            match quoted_dec(s.subrange(1, s.len() as int)) {
                Some((t, u)) => if 0 < u <= s.len() - 1 {
                    match list_items_dec(s.subrange(1 + u, s.len() as int)) {
                        Some((ts, u2)) => Some((seq![t] + ts, 1 + u + u2)),
                        None => None,
                    }
                } else {
                    None
                },
                None => None,
            }
        }
    } else {
        None
    }
}

/// True when `s` starts with `lit`.
pub open spec fn starts_with(s: Seq<char>, lit: Seq<char>) -> bool {
    s.len() >= lit.len() && s.subrange(0, lit.len() as int) == lit
}

/// Parse a whole address blob; the blob must be consumed exactly.
pub open spec fn addr_dec(s: Seq<char>) -> Option<EndpointAddressV> {
    let l0 = "{\"id\":"@;
    if starts_with(s, l0) {
        let s1 = s.subrange(l0.len() as int, s.len() as int);
        match quoted_dec(s1) {
            Some((node_id, u1)) => {
                let s2 = s1.subrange(u1, s1.len() as int);
                let l1 = ",\"direct\":"@;
                if starts_with(s2, l1) {
                    let s3 = s2.subrange(l1.len() as int, s2.len() as int);
                    match list_dec(s3) {
                        Some((direct, u2)) => {
                            let s4 = s3.subrange(u2, s3.len() as int);
                            let l2 = ",\"relays\":"@;
                            if starts_with(s4, l2) {
                                let s5 = s4.subrange(l2.len() as int, s4.len() as int);
                                match list_dec(s5) {
                                    Some((relays, u3)) => {
                                        let s6 = s5.subrange(u3, s5.len() as int);
                                        if s6 =~= "}"@ {
                                            Some(
                                                (EndpointAddressV {
                                                    node_id,
                                                    direct_addresses: direct,
                                                    relay_urls: relays,
                                                }),
                                            )
                                        } else {
                                            None
                                        }
                                    },
                                    None => None,
                                }
                            } else {
                                None
                            }
                        },
                        None => None,
                    }
                } else {
                    None
                }
            },
            None => None,
        }
    } else {
        None
    }
}

// ---------------------------------------------------------------------------
// Round trip.
// ---------------------------------------------------------------------------
/// Unescaping inverts escaping, up to the closing quote, under any suffix.
proof fn lemma_esc_round_trip(t: Seq<char>, rest: Seq<char>)
    ensures
        esc_dec((esc(t) + seq!['"']) + rest) == Some((t, esc(t).len() + 1int)),
        esc(t).len() >= t.len(),
    decreases t.len(),
{
    let s = (esc(t) + seq!['"']) + rest;
    if t.len() == 0 {
        assert(s[0] == '"');
    } else {
        let c = t[0];
        let t2 = t.drop_first();
        lemma_esc_round_trip(t2, rest);
        if c == '"' || c == '\\' {
            assert(s[0] == '\\');
            assert(s[1] == c);
            assert(s.subrange(2, s.len() as int) =~= (esc(t2) + seq!['"']) + rest);
            assert(seq![s[1]] + t2 =~= t);
        } else {
            assert(s[0] == c);
            assert(s[0] != '"' && s[0] != '\\');
            assert(s.subrange(1, s.len() as int) =~= (esc(t2) + seq!['"']) + rest);
            assert(seq![s[0]] + t2 =~= t);
        }
    }
}

/// Parsing a quoted string inverts quoting, under any suffix.
proof fn lemma_quoted_round_trip(t: Seq<char>, rest: Seq<char>)
    ensures
        quoted_dec(quoted(t) + rest) == Some((t, quoted(t).len() as int)),
        quoted(t).len() >= 2,
        (quoted(t) + rest).subrange(quoted(t).len() as int, (quoted(t) + rest).len() as int)
            == rest,
    decreases t.len(),
{
    let s = quoted(t) + rest;
    assert(s[0] == '"');
    assert(s.subrange(1, s.len() as int) =~= (esc(t) + seq!['"']) + rest);
    lemma_esc_round_trip(t, rest);
    assert(s.subrange(quoted(t).len() as int, s.len() as int) =~= rest);
}

/// Parsing the items after the first inverts the comma-separated form.
proof fn lemma_list_items_round_trip(l: Seq<Seq<char>>, rest: Seq<char>)
    ensures
        ({
            let inner: Seq<char> = if l.len() == 0 {
                seq![']']
            } else {
                seq![','] + list_inner(l) + seq![']']
            };
            list_items_dec(inner + rest) == Some((l, inner.len() as int))
        }),
    decreases l.len(),
{
    if l.len() == 0 {
        let inner = seq![']'];
        assert((inner + rest)[0] == ']');
    } else {
        let inner = seq![','] + list_inner(l) + seq![']'];
        let s = inner + rest;
        assert(s[0] == ',');
        assert(s[0] != ']');
        let t0 = l[0];
        let tail = l.drop_first();
        let inner2: Seq<char> = if tail.len() == 0 {
            seq![']']
        } else {
            seq![','] + list_inner(tail) + seq![']']
        };
        assert(list_inner(l) =~= if tail.len() == 0 {
            quoted(t0)
        } else {
            quoted(t0) + seq![','] + list_inner(tail)
        });
        assert(s.subrange(1, s.len() as int) =~= quoted(t0) + (inner2 + rest));
        lemma_quoted_round_trip(t0, inner2 + rest);
        let u = quoted(t0).len() as int;
        assert(s.subrange(1 + u, s.len() as int) =~= inner2 + rest);
        lemma_list_items_round_trip(tail, rest);
        assert(seq![t0] + tail =~= l);
    }
}

/// Parsing a list inverts the bracketed form, under any suffix.
proof fn lemma_list_round_trip(l: Seq<Seq<char>>, rest: Seq<char>)
    ensures
        list_dec(list_enc(l) + rest) == Some((l, list_enc(l).len() as int)),
        (list_enc(l) + rest).subrange(list_enc(l).len() as int, (list_enc(l) + rest).len() as int)
            == rest,
{
    let s = list_enc(l) + rest;
    assert(s[0] == '[');
    if l.len() == 0 {
        assert(s[1] == ']');
        assert(s.subrange(2, s.len() as int) =~= rest);
    } else {
        let t0 = l[0];
        let tail = l.drop_first();
        let inner2: Seq<char> = if tail.len() == 0 {
            seq![']']
        } else {
            seq![','] + list_inner(tail) + seq![']']
        };
        assert(list_inner(l) =~= if tail.len() == 0 {
            quoted(t0)
        } else {
            quoted(t0) + seq![','] + list_inner(tail)
        });
        assert(s.subrange(1, s.len() as int) =~= quoted(t0) + (inner2 + rest));
        lemma_quoted_round_trip(t0, inner2 + rest);
        assert(s[1] == '"');
        assert(s[1] != ']');
        let u = quoted(t0).len() as int;
        assert(s.subrange(1 + u, s.len() as int) =~= inner2 + rest);
        lemma_list_items_round_trip(tail, rest);
        assert(seq![t0] + tail =~= l);
        assert(s.subrange(list_enc(l).len() as int, s.len() as int) =~= rest);
    }
}

/// Address round trip: decoding inverts encoding for any address, with any
/// number of direct addresses and relay URLs.
pub proof fn lemma_addr_round_trip(a: EndpointAddressV)
    ensures
        addr_dec(addr_enc(a)) == Some(a),
{
    let l0 = "{\"id\":"@;
    let l1 = ",\"direct\":"@;
    let l2 = ",\"relays\":"@;
    let l3 = "}"@;
    let q = quoted(a.node_id);
    let d = list_enc(a.direct_addresses);
    let r = list_enc(a.relay_urls);
    let s = addr_enc(a);
    assert(s =~= l0 + (q + (l1 + (d + (l2 + (r + l3))))));
    let s1 = q + (l1 + (d + (l2 + (r + l3))));
    assert(starts_with(s, l0)) by {
        assert(s.subrange(0, l0.len() as int) =~= l0);
    }
    assert(s.subrange(l0.len() as int, s.len() as int) =~= s1);
    lemma_quoted_round_trip(a.node_id, l1 + (d + (l2 + (r + l3))));
    let s2 = l1 + (d + (l2 + (r + l3)));
    assert(starts_with(s2, l1)) by {
        assert(s2.subrange(0, l1.len() as int) =~= l1);
    }
    let s3 = d + (l2 + (r + l3));
    assert(s2.subrange(l1.len() as int, s2.len() as int) =~= s3);
    lemma_list_round_trip(a.direct_addresses, l2 + (r + l3));
    let s4 = l2 + (r + l3);
    assert(starts_with(s4, l2)) by {
        assert(s4.subrange(0, l2.len() as int) =~= l2);
    }
    let s5 = r + l3;
    assert(s4.subrange(l2.len() as int, s4.len() as int) =~= s5);
    lemma_list_round_trip(a.relay_urls, l3);
    let s6 = l3;
    assert(s5.subrange(r.len() as int, s5.len() as int) =~= s6);
}

// ---------------------------------------------------------------------------
// Executable codec.
// ---------------------------------------------------------------------------
/// Relies on `String::push`: it appends exactly the one character.
#[verifier::external_body]
pub(crate) fn string_push_char(s: &mut String, c: char)
    ensures
        final(s)@ == old(s)@.push(c),
{
    s.push(c);
}

/// Relies on `str::chars` and `Iterator::collect`: the characters of the
/// string, in order.
#[verifier::external_body]
pub(crate) fn str_chars_vec(s: &str) -> (r: Vec<char>)
    ensures
        r@ == s@,
{
    s.chars().collect()
}

proof fn lemma_esc_push(s: Seq<char>, c: char)
    ensures
        esc(s.push(c)) == esc(s) + (if c == '"' || c == '\\' {
            seq!['\\', c]
        } else {
            seq![c]
        }),
    decreases s.len(),
{
    let tail: Seq<char> = if c == '"' || c == '\\' {
        seq!['\\', c]
    } else {
        seq![c]
    };
    if s.len() == 0 {
        assert(s.push(c)[0] == c);
        assert(s.push(c).drop_first() =~= Seq::<char>::empty());
        assert(esc(s.push(c)) == tail + esc(Seq::<char>::empty()));
        assert(tail + Seq::<char>::empty() =~= tail);
        assert(esc(s) + tail =~= tail);
    } else {
        assert(s.push(c)[0] == s[0]);
        assert(s.push(c).drop_first() =~= s.drop_first().push(c));
        lemma_esc_push(s.drop_first(), c);
        let head: Seq<char> = if s[0] == '"' || s[0] == '\\' {
            seq!['\\', s[0]]
        } else {
            seq![s[0]]
        };
        assert(head + (esc(s.drop_first()) + tail) =~= (head + esc(s.drop_first())) + tail);
    }
}

/// Append the quoted, escaped form of `s` to `out`.
pub(crate) fn push_quoted(out: &mut String, s: &str)
    ensures
        final(out)@ == old(out)@ + quoted(s@),
{
    let chars = str_chars_vec(s);
    string_push_char(out, '"');
    let ghost start = old(out)@ + seq!['"'];
    let mut i: usize = 0;
    while i < chars.len()
        invariant
            i <= chars@.len(),
            chars@ == s@,
            out@ == old(out)@ + seq!['"'] + esc(chars@.subrange(0, i as int)),
        decreases chars@.len() - i,
    {
        let c = chars[i];
        proof {
            assert(chars@.subrange(0, i + 1 as int) =~= chars@.subrange(0, i as int).push(
                chars@[i as int],
            ));
            lemma_esc_push(chars@.subrange(0, i as int), chars@[i as int]);
        }
        if c == '"' || c == '\\' {
            string_push_char(out, '\\');
        }
        string_push_char(out, c);
        proof {
            let pre = esc(chars@.subrange(0, i as int));
            let cur = esc(chars@.subrange(0, i + 1 as int));
            if chars@[i as int] == '"' || chars@[i as int] == '\\' {
                assert((old(out)@ + seq!['"'] + pre).push('\\').push(c) =~= old(out)@ + seq!['"']
                    + cur);
            } else {
                assert((old(out)@ + seq!['"'] + pre).push(c) =~= old(out)@ + seq!['"'] + cur);
            }
        }
        i = i + 1;
    }
    string_push_char(out, '"');
    proof {
        assert(chars@.subrange(0, chars@.len() as int) =~= chars@);
        assert((old(out)@ + seq!['"'] + esc(s@)).push('"') =~= old(out)@ + quoted(s@));
    }
}

proof fn lemma_list_inner_push(l: Seq<Seq<char>>, t: Seq<char>)
    ensures
        list_inner(l.push(t)) == (if l.len() == 0 {
            quoted(t)
        } else {
            list_inner(l) + seq![','] + quoted(t)
        }),
    decreases l.len(),
{
    if l.len() == 0 {
        assert(l.push(t)[0] == t);
        assert(l.push(t).len() == 1);
        assert(list_inner(l.push(t)) =~= quoted(t));
    } else {
        assert(l.push(t)[0] == l[0]);
        assert(l.push(t).drop_first() =~= l.drop_first().push(t));
        lemma_list_inner_push(l.drop_first(), t);
        if l.len() == 1 {
            assert(list_inner(l.push(t)) =~= list_inner(l) + seq![','] + quoted(t));
        } else {
            assert(quoted(l[0]) + seq![','] + (list_inner(l.drop_first()) + seq![','] + quoted(t))
                =~= (quoted(l[0]) + seq![','] + list_inner(l.drop_first())) + seq![','] + quoted(
                t,
            ));
        }
    }
}

/// Append the bracketed list form of `l` to `out`.
fn push_list(out: &mut String, l: &Vec<String>)
    ensures
        final(out)@ == old(out)@ + list_enc(l@.map_values(|s: String| s@)),
{
    string_push_char(out, '[');
    let mut i: usize = 0;
    while i < l.len()
        invariant
            i <= l@.len(),
            out@ == old(out)@ + seq!['['] + list_inner(
                l@.subrange(0, i as int).map_values(|s: String| s@),
            ),
        decreases l@.len() - i,
    {
        if i > 0 {
            string_push_char(out, ',');
        }
        push_quoted(out, l[i].as_str());
        proof {
            let pre = l@.subrange(0, i as int).map_values(|s: String| s@);
            let cur = l@.subrange(0, i + 1 as int).map_values(|s: String| s@);
            assert(cur =~= pre.push(l@[i as int]@));
            lemma_list_inner_push(pre, l@[i as int]@);
            if i > 0 {
                assert(pre.len() > 0);
                assert(((old(out)@ + seq!['['] + list_inner(pre)).push(',')) + quoted(
                    l@[i as int]@,
                ) =~= old(out)@ + seq!['['] + list_inner(cur));
            } else {
                assert(pre.len() == 0);
                assert(list_inner(pre) =~= Seq::<char>::empty());
                assert((old(out)@ + seq!['['] + list_inner(pre)) + quoted(l@[i as int]@) =~= old(
                    out,
                )@ + seq!['['] + list_inner(cur));
            }
        }
        i = i + 1;
    }
    string_push_char(out, ']');
    proof {
        assert(l@.subrange(0, l@.len() as int) =~= l@);
        assert((old(out)@ + seq!['['] + list_inner(l@.map_values(|s: String| s@))).push(']') =~=
            old(out)@ + list_enc(l@.map_values(|s: String| s@)));
    }
}

/// Encode an address as its text blob.
pub fn encode_address(a: &EndpointAddress) -> (r: String)
    ensures
        r@ == addr_enc(a@),
{
    let mut out = String::new();
    out.append("{\"id\":");
    push_quoted(&mut out, a.node_id.as_str());
    out.append(",\"direct\":");
    push_list(&mut out, &a.direct_addresses);
    out.append(",\"relays\":");
    push_list(&mut out, &a.relay_urls);
    out.append("}");
    proof {
        assert(out@ =~= addr_enc(a@));
    }
    out
}

/// Check that the characters at `pos` start with the literal.
pub(crate) fn expect_lit(chars: &Vec<char>, pos: usize, lit: &str) -> (r: Option<usize>)
    requires
        pos <= chars@.len(),
    ensures
        ({
            let tail = chars@.subrange(pos as int, chars@.len() as int);
            match r {
                Some(p2) => starts_with(tail, lit@) && p2 - pos == lit@.len() && pos <= p2
                    <= chars@.len(),
                None => !starts_with(tail, lit@),
            }
        }),
{
    let ghost tail = chars@.subrange(pos as int, chars@.len() as int);
    let lit_chars = str_chars_vec(lit);
    let clen = chars.len();
    if lit_chars.len() > clen - pos {
        return None;
    }
    let mut i: usize = 0;
    while i < lit_chars.len()
        invariant
            i <= lit_chars@.len(),
            lit_chars@ == lit@,
            clen == chars@.len(),
            pos + lit_chars@.len() <= clen,
            tail == chars@.subrange(pos as int, chars@.len() as int),
            forall|j: int| 0 <= j < i ==> chars@[pos + j] == lit_chars@[j],
        decreases lit_chars@.len() - i,
    {
        if chars[pos + i] != lit_chars[i] {
            proof {
                if starts_with(tail, lit@) {
                    assert(tail.subrange(0, lit@.len() as int) == lit@);
                    assert(tail.subrange(0, lit@.len() as int)[i as int] == tail[i as int]);
                    assert(tail[i as int] == chars@[pos + i]);
                }
            }
            return None;
        }
        i = i + 1;
    }
    proof {
        assert(tail.subrange(0, lit@.len() as int) =~= lit@);
    }
    Some(pos + lit_chars.len())
}

/// Read a quoted string at `pos`, undoing the escaping.
pub(crate) fn read_quoted(chars: &Vec<char>, pos: usize) -> (r: Option<(String, usize)>)
    requires
        pos <= chars@.len(),
    ensures
        ({
            let tail = chars@.subrange(pos as int, chars@.len() as int);
            match r {
                Some((t, p2)) => pos < p2 <= chars@.len() && quoted_dec(tail) == Some(
                    (t@, p2 - pos),
                ),
                None => quoted_dec(tail) is None,
            }
        }),
{
    let ghost tail = chars@.subrange(pos as int, chars@.len() as int);
    if pos >= chars.len() || chars[pos] != '"' {
        proof {
            if tail.len() >= 1 {
                assert(tail[0] == chars@[pos as int]);
            }
        }
        return None;
    }
    let mut out = String::new();
    let mut cur: usize = pos + 1;
    loop
        invariant_except_break
            pos + 1 <= cur <= chars@.len(),
            pos < chars@.len(),
            chars@[pos as int] == '"',
            ({
                let t0 = chars@.subrange(pos + 1 as int, chars@.len() as int);
                let tc = chars@.subrange(cur as int, chars@.len() as int);
                match esc_dec(tc) {
                    Some(res) => esc_dec(t0) == Some((out@ + res.0, cur - pos - 1 + res.1)),
                    None => esc_dec(t0) is None,
                }
            }),
        ensures
            ({
                let t0 = chars@.subrange(pos + 1 as int, chars@.len() as int);
                &&& pos + 1 <= cur < chars@.len()
                &&& pos < chars@.len()
                &&& chars@[pos as int] == '"'
                &&& esc_dec(t0) == Some((out@, cur - pos as int))
            }),
        decreases chars@.len() - cur,
    {
        proof {
            if cur < chars@.len() {
                assert(chars@.subrange(cur as int, chars@.len() as int)[0] == chars@[cur as int]);
            }
        }
        if cur >= chars.len() {
            proof {
                let t0 = chars@.subrange(pos + 1 as int, chars@.len() as int);
                let tc = chars@.subrange(cur as int, chars@.len() as int);
                assert(tc.len() == 0);
                assert(esc_dec(tc) is None);
                let tl = chars@.subrange(pos as int, chars@.len() as int);
                assert(tl[0] == chars@[pos as int]);
                assert(tl.subrange(1, tl.len() as int) =~= t0);
            }
            return None;
        }
        let c = chars[cur];
        if c == '"' {
            proof {
                let tc = chars@.subrange(cur as int, chars@.len() as int);
                assert(esc_dec(tc) == Some((Seq::<char>::empty(), 1int)));
                assert(out@ + Seq::<char>::empty() =~= out@);
            }
            break;
        } else if c == '\\' {
            proof {
                let tc = chars@.subrange(cur as int, chars@.len() as int);
                if cur + 1 < chars@.len() {
                    assert(tc[1] == chars@[cur + 1]);
                    assert(tc.subrange(2, tc.len() as int) =~= chars@.subrange(
                        cur + 2 as int,
                        chars@.len() as int,
                    ));
                }
            }
            if cur + 1 >= chars.len() {
                proof {
                    let t0 = chars@.subrange(pos + 1 as int, chars@.len() as int);
                    let tc = chars@.subrange(cur as int, chars@.len() as int);
                    assert(tc.len() < 2);
                    assert(esc_dec(tc) is None);
                    let tl = chars@.subrange(pos as int, chars@.len() as int);
                    assert(tl[0] == chars@[pos as int]);
                    assert(tl.subrange(1, tl.len() as int) =~= t0);
                }
                return None;
            }
            let d = chars[cur + 1];
            proof {
                let tc = chars@.subrange(cur as int, chars@.len() as int);
                let tn = chars@.subrange(cur + 2 as int, chars@.len() as int);
                match esc_dec(tn) {
                    Some(res) => {
                        assert(esc_dec(tc) == Some((seq![chars@[cur + 1]] + res.0, 2 + res.1)));
                        assert(out@ + (seq![chars@[cur + 1]] + res.0) =~= out@.push(
                            chars@[cur + 1],
                        ) + res.0);
                    },
                    None => {},
                }
            }
            string_push_char(&mut out, d);
            cur = cur + 2;
        } else {
            proof {
                let tc = chars@.subrange(cur as int, chars@.len() as int);
                assert(tc.subrange(1, tc.len() as int) =~= chars@.subrange(
                    cur + 1 as int,
                    chars@.len() as int,
                ));
                let tn = chars@.subrange(cur + 1 as int, chars@.len() as int);
                match esc_dec(tn) {
                    Some(res) => {
                        assert(esc_dec(tc) == Some((seq![chars@[cur as int]] + res.0, 1 + res.1)));
                        assert(out@ + (seq![chars@[cur as int]] + res.0) =~= out@.push(
                            chars@[cur as int],
                        ) + res.0);
                    },
                    None => {},
                }
            }
            string_push_char(&mut out, c);
            cur = cur + 1;
        }
    }
    proof {
        let t0 = chars@.subrange(pos + 1 as int, chars@.len() as int);
        assert(tail[0] == '"');
        assert(tail.subrange(1, tail.len() as int) =~= t0);
    }
    Some((out, cur + 1))
}

/// Read a bracketed list of quoted strings at `pos`.
pub(crate) fn read_list(chars: &Vec<char>, pos: usize) -> (r: Option<(Vec<String>, usize)>)
    requires
        pos <= chars@.len(),
    ensures
        ({
            let tail = chars@.subrange(pos as int, chars@.len() as int);
            match r {
                Some((l, p2)) => pos < p2 <= chars@.len() && list_dec(tail) == Some(
                    (l@.map_values(|s: String| s@), p2 - pos),
                ),
                None => list_dec(tail) is None,
            }
        }),
{
    let ghost tail = chars@.subrange(pos as int, chars@.len() as int);
    proof {
        if tail.len() >= 1 {
            assert(tail[0] == chars@[pos as int]);
        }
        if tail.len() >= 2 {
            assert(tail[1] == chars@[pos + 1]);
        }
    }
    if pos >= chars.len() || chars[pos] != '[' {
        return None;
    }
    if pos + 1 < chars.len() && chars[pos + 1] == ']' {
        let empty_list: Vec<String> = Vec::new();
        proof {
            assert(empty_list@.map_values(|s: String| s@) =~= Seq::<Seq<char>>::empty());
        }
        return Some((empty_list, pos + 2));
    }
    proof {
        assert(tail.subrange(1, tail.len() as int) =~= chars@.subrange(
            pos + 1 as int,
            chars@.len() as int,
        ));
    }
    let (first, first_end) = match read_quoted(chars, pos + 1) {
        Some(x) => x,
        None => {
            return None;
        },
    };
    let mut cur = first_end;
    let mut acc: Vec<String> = Vec::new();
    proof {
        // the quoted first element lines the spec parser up with the items
        // that follow
        let u = cur - pos - 1;
        assert(0 < u <= tail.len() - 1);
        assert(tail.subrange(1 + u, tail.len() as int) =~= chars@.subrange(
            cur as int,
            chars@.len() as int,
        ));
    }
    acc.push(first);
    proof {
        assert(acc@.map_values(|s: String| s@) =~= seq![acc@[0]@]);
    }
    loop
        invariant_except_break
            pos + 1 < cur <= chars@.len(),
            pos + 1 < chars@.len(),
            acc@.len() >= 1,
            tail == chars@.subrange(pos as int, chars@.len() as int),
            ({
                let tc = chars@.subrange(cur as int, chars@.len() as int);
                match list_items_dec(tc) {
                    Some(res) => list_dec(tail) == Some(
                        (acc@.map_values(|s: String| s@) + res.0, cur - pos + res.1),
                    ),
                    None => list_dec(tail) is None,
                }
            }),
        ensures
            pos < cur < chars@.len(),
            list_dec(tail) == Some((acc@.map_values(|s: String| s@), cur + 1 - pos as int)),
        decreases chars@.len() - cur,
    {
        proof {
            let tc = chars@.subrange(cur as int, chars@.len() as int);
            if cur < chars@.len() {
                assert(tc[0] == chars@[cur as int]);
            } else {
                assert(tc.len() == 0);
                assert(list_items_dec(tc) is None);
            }
        }
        if cur >= chars.len() {
            return None;
        }
        let c = chars[cur];
        if c == ']' {
            proof {
                let tc = chars@.subrange(cur as int, chars@.len() as int);
                assert(list_items_dec(tc) == Some((Seq::<Seq<char>>::empty(), 1int)));
                assert(acc@.map_values(|s: String| s@) + Seq::<Seq<char>>::empty() =~=
                    acc@.map_values(|s: String| s@));
            }
            break;
        } else if c == ',' {
            proof {
                let tc = chars@.subrange(cur as int, chars@.len() as int);
                assert(tc.subrange(1, tc.len() as int) =~= chars@.subrange(
                    cur + 1 as int,
                    chars@.len() as int,
                ));
            }
            let (item, cur2) = match read_quoted(chars, cur + 1) {
                Some(x) => x,
                None => {
                    return None;
                },
            };
            proof {
                let tc = chars@.subrange(cur as int, chars@.len() as int);
                let tn = chars@.subrange(cur2 as int, chars@.len() as int);
                let u = cur2 - cur - 1;
                assert(0 < u <= tc.len() - 1);
                assert(tc.subrange(1 + u, tc.len() as int) =~= tn);
                match list_items_dec(tn) {
                    Some(res) => {
                        assert(list_items_dec(tc) == Some((seq![item@] + res.0, 1 + u + res.1)));
                        let av = acc@.map_values(|s: String| s@);
                        assert(acc@.push(item).map_values(|s: String| s@) =~= av.push(item@));
                        assert(av + (seq![item@] + res.0) =~= av.push(item@) + res.0);
                    },
                    None => {
                        assert(list_items_dec(tc) is None);
                    },
                }
            }
            acc.push(item);
            cur = cur2;
        } else {
            proof {
                let tc = chars@.subrange(cur as int, chars@.len() as int);
                assert(tc[0] != ']' && tc[0] != ',');
                assert(list_items_dec(tc) is None);
            }
            return None;
        }
    }
    Some((acc, cur + 1))
}

/// Decode an address blob; malformed blobs yield nothing.
#[verifier::rlimit(100)]
#[verifier::spinoff_prover]
pub fn decode_address(s: &str) -> (r: Option<EndpointAddress>)
    ensures
        (r matches Some(a) ==> addr_dec(s@) == Some(a@)),
        (r is None ==> addr_dec(s@) is None),
{
    let chars = str_chars_vec(s);
    proof {
        assert(chars@.subrange(0, chars@.len() as int) =~= chars@);
    }
    let p0 = match expect_lit(&chars, 0, "{\"id\":") {
        Some(p) => p,
        None => {
            return None;
        },
    };
    proof {
        lemma_char_tail_shift(chars@, 0, p0 as int);
    }
    let (node_id, p1) = match read_quoted(&chars, p0) {
        Some(x) => x,
        None => {
            return None;
        },
    };
    proof {
        lemma_char_tail_shift(chars@, p0 as int, p1 as int);
    }
    let p2 = match expect_lit(&chars, p1, ",\"direct\":") {
        Some(p) => p,
        None => {
            return None;
        },
    };
    proof {
        lemma_char_tail_shift(chars@, p1 as int, p2 as int);
    }
    let (direct_addresses, p3) = match read_list(&chars, p2) {
        Some(x) => x,
        None => {
            return None;
        },
    };
    proof {
        lemma_char_tail_shift(chars@, p2 as int, p3 as int);
    }
    let p4 = match expect_lit(&chars, p3, ",\"relays\":") {
        Some(p) => p,
        None => {
            return None;
        },
    };
    proof {
        lemma_char_tail_shift(chars@, p3 as int, p4 as int);
    }
    let (relay_urls, p5) = match read_list(&chars, p4) {
        Some(x) => x,
        None => {
            return None;
        },
    };
    proof {
        lemma_char_tail_shift(chars@, p4 as int, p5 as int);
    }
    let p6 = match expect_lit(&chars, p5, "}") {
        Some(p) => p,
        None => {
            proof {
                let t = chars@.subrange(p5 as int, chars@.len() as int);
                reveal_strlit("}");
                if t =~= "}"@ {
                    assert(t.subrange(0, "}"@.len() as int) =~= "}"@);
                    assert(starts_with(t, "}"@));
                }
            }
            return None;
        },
    };
    if p6 != chars.len() {
        proof {
            let t = chars@.subrange(p5 as int, chars@.len() as int);
            reveal_strlit("}");
            assert(t.len() > 1);
            assert(!(t =~= "}"@));
        }
        return None;
    }
    proof {
        let t = chars@.subrange(p5 as int, chars@.len() as int);
        reveal_strlit("}");
        assert(t =~= "}"@);
    }
    Some(EndpointAddress { node_id, direct_addresses, relay_urls })
}

/// Shifting a character suffix, as for bytes.
pub(crate) proof fn lemma_char_tail_shift(d: Seq<char>, p1: int, p2: int)
    requires
        0 <= p1 <= p2 <= d.len(),
    ensures
        d.subrange(p1, d.len() as int).subrange(p2 - p1, d.len() - p1) =~= d.subrange(
            p2,
            d.len() as int,
        ),
{
}

/// What a peer argument names: a blob (detected by its leading brace) is
/// decoded and projected to its node identifier; anything else, including a
/// blob that does not parse, is taken as a bare identifier.
pub open spec fn spec_resolve_target(t: Seq<char>) -> Seq<char> {
    if t.len() >= 1 && t[0] == '{' {
        match addr_dec(t) {
            Some(a) => a.node_id,
            None => t,
        }
    } else {
        t
    }
}

/// Resolve a peer argument to the node identifier to look up.
pub fn resolve_target(target: &String) -> (r: String)
    ensures
        r@ == spec_resolve_target(target@),
{
    let chars = str_chars_vec(target.as_str());
    if chars.len() >= 1 && chars[0] == '{' {
        match decode_address(target.as_str()) {
            Some(a) => a.node_id,
            None => target.clone(),
        }
    } else {
        target.clone()
    }
}

} // verus!
