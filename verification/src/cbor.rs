//! Byte-level primitives of the wire format: big-endian integers and the
//! self-delimiting tagged items (unsigned integers, text strings, byte
//! strings, booleans, null, array headers) that the message codec is built
//! from.  Every encoder has a total spec-level mirror, every decoder is
//! pinned to a spec-level parser, and a round-trip lemma per item shows that
//! the parser inverts the encoder on any suffix.
use vstd::prelude::*;
use vstd::utf8::{decode_utf8, encode_utf8, valid_utf8};

verus! {

/// 256 to the power `n`: the number of values of an `n`-byte big-endian
/// integer.
pub open spec fn pow256(n: nat) -> nat
    decreases n,
{
    if n == 0 {
        1
    } else {
        256 * pow256((n - 1) as nat)
    }
}

pub proof fn lemma_pow256_8()
    ensures
        pow256(1) == 0x100,
        pow256(2) == 0x10000,
        pow256(4) == 0x100000000,
        pow256(8) == 0x10000000000000000,
{
    reveal_with_fuel(pow256, 9);
}

/// The `n`-byte big-endian encoding of `v`.
pub open spec fn be_bytes(v: nat, n: nat) -> Seq<u8>
    decreases n,
{
    if n == 0 {
        Seq::empty()
    } else {
        be_bytes(v / 256, (n - 1) as nat) + seq![(v % 256) as u8]
    }
}

/// The value a byte sequence holds when read as a big-endian integer.
pub open spec fn be_val(s: Seq<u8>) -> nat
    decreases s.len(),
{
    if s.len() == 0 {
        0
    } else {
        be_val(s.drop_last()) * 256 + (s.last() as nat)
    }
}

pub proof fn lemma_be_bytes_len(v: nat, n: nat)
    ensures
        be_bytes(v, n).len() == n,
    decreases n,
{
    if n > 0 {
        lemma_be_bytes_len(v / 256, (n - 1) as nat);
    }
}

/// Reading back the big-endian encoding of `v` yields `v`.
pub proof fn lemma_be_round_trip(v: nat, n: nat)
    requires
        v < pow256(n),
    ensures
        be_val(be_bytes(v, n)) == v,
    decreases n,
{
    if n == 0 {
    } else {
        let m = (n - 1) as nat;
        assert(v / 256 < pow256(m)) by (nonlinear_arith)
            requires
                v < 256 * pow256(m),
        ;
        lemma_be_round_trip(v / 256, m);
        let a = be_bytes(v / 256, m);
        let whole = a + seq![(v % 256) as u8];
        assert(whole.drop_last() =~= a);
        assert(whole.last() == (v % 256) as u8);
        assert((v / 256) * 256 + v % 256 == v) by (nonlinear_arith);
    }
}

/// The `n`-byte big-endian encoding of `v`, as executable code.
pub fn encode_be(v: u64, n: usize) -> (r: Vec<u8>)
    requires
        n <= 8,
        (v as nat) < pow256(n as nat),
    ensures
        r@ == be_bytes(v as nat, n as nat),
        r@.len() == n,
    decreases n,
{
    proof {
        lemma_be_bytes_len(v as nat, n as nat);
    }
    if n == 0 {
        Vec::new()
    } else {
        proof {
            let m = (n - 1) as nat;
            assert((v as nat) / 256 < pow256(m)) by (nonlinear_arith)
                requires
                    (v as nat) < 256 * pow256(m),
            ;
            assert((v / 256) as nat == (v as nat) / 256);
            assert((v % 256) as nat == (v as nat) % 256);
        }
        let mut r = encode_be(v / 256, n - 1);
        r.push((v % 256) as u8);
        r
    }
}

/// Read an `n`-byte big-endian integer at `pos`.
pub fn read_be(data: &Vec<u8>, pos: usize, n: usize) -> (v: u64)
    requires
        n <= 8,
        pos + n <= data@.len(),
    ensures
        v as nat == be_val(data@.subrange(pos as int, pos + n as int)),
        (v as nat) < pow256(n as nat),
{
    proof {
        lemma_pow256_8();
    }
    let len = data.len();
    let mut v: u64 = 0;
    let mut i: usize = 0;
    while i < n
        invariant
            i <= n,
            n <= 8,
            pos + n <= len,
            len == data@.len(),
            v as nat == be_val(data@.subrange(pos as int, pos + i as int)),
            (v as nat) < pow256(i as nat),
        decreases n - i,
    {
        let b = data[pos + i];
        proof {
            lemma_pow256_8();
            let cur = data@.subrange(pos as int, pos + (i + 1) as int);
            assert(cur.drop_last() =~= data@.subrange(pos as int, pos + i as int));
            assert(cur.last() == data@[pos + i as int]);
            assert(256 * pow256(i as nat) == pow256((i + 1) as nat));
            assert((v as nat) * 256 + (b as nat) < 256 * pow256(i as nat)) by (nonlinear_arith)
                requires
                    (v as nat) < pow256(i as nat),
                    (b as nat) < 256,
            ;
            assert(pow256((i + 1) as nat) <= pow256(8)) by {
                lemma_pow256_monotone((i + 1) as nat, 8);
            }
        }
        v = v * 256 + (b as u64);
        i = i + 1;
    }
    proof {
        assert(data@.subrange(pos as int, pos + n as int) =~= data@.subrange(
            pos as int,
            pos + i as int,
        ));
    }
    v
}

pub proof fn lemma_pow256_monotone(a: nat, b: nat)
    requires
        a <= b,
    ensures
        pow256(a) <= pow256(b),
    decreases b,
{
    if a < b {
        lemma_pow256_monotone(a, (b - 1) as nat);
        assert(pow256((b - 1) as nat) <= 256 * pow256((b - 1) as nat)) by (nonlinear_arith)
            requires
                pow256((b - 1) as nat) >= 0,
        ;
    }
}

// ---------------------------------------------------------------------------
// Item headers: one byte holding a major type (high three bits) and an
// argument, with the argument spilled into 1, 2, 4 or 8 following bytes when
// it does not fit the five low bits.
// ---------------------------------------------------------------------------
/// Encoding of an item header with major type `major` and argument `arg`.
pub open spec fn head_enc(major: nat, arg: nat) -> Seq<u8>
    recommends
        major < 8,
        arg < pow256(8),
{
    if arg < 24 {
        seq![(major * 32 + arg) as u8]
    } else if arg < 0x100 {
        seq![(major * 32 + 24) as u8] + be_bytes(arg, 1)
    } else if arg < 0x10000 {
        seq![(major * 32 + 25) as u8] + be_bytes(arg, 2)
    } else if arg < 0x100000000 {
        seq![(major * 32 + 26) as u8] + be_bytes(arg, 4)
    } else {
        seq![(major * 32 + 27) as u8] + be_bytes(arg, 8)
    }
}

/// Parse an item header from the front of `s`: the major type, the argument,
/// and the number of bytes the header used.
pub open spec fn head_dec(s: Seq<u8>) -> Option<(nat, nat, int)> {
    if s.len() == 0 {
        None
    } else {
        let b = s[0] as nat;
        let major = b / 32;
        let info = b % 32;
        if info < 24 {
            Some((major, info, 1))
        } else if info == 24 && s.len() >= 2 {
            Some((major, be_val(s.subrange(1, 2)), 2))
        } else if info == 25 && s.len() >= 3 {
            Some((major, be_val(s.subrange(1, 3)), 3))
        } else if info == 26 && s.len() >= 5 {
            Some((major, be_val(s.subrange(1, 5)), 5))
        } else if info == 27 && s.len() >= 9 {
            Some((major, be_val(s.subrange(1, 9)), 9))
        } else {
            None
        }
    }
}

proof fn lemma_head_byte(major: nat, info: nat)
    requires
        major < 8,
        info < 32,
    ensures
        (major * 32 + info) / 32 == major,
        (major * 32 + info) % 32 == info,
        major * 32 + info < 256,
{
    assert((major * 32 + info) / 32 == major && (major * 32 + info) % 32 == info && major * 32
        + info < 256) by (nonlinear_arith)
        requires
            major < 8,
            info < 32,
    ;
}

/// The header parser inverts the header encoder under any suffix.
pub proof fn lemma_head_round_trip(major: nat, arg: nat, rest: Seq<u8>)
    requires
        major < 8,
        arg < pow256(8),
    ensures
        head_dec(head_enc(major, arg) + rest) == Some(
            (major, arg, head_enc(major, arg).len() as int),
        ),
        head_enc(major, arg).len() >= 1,
{
    lemma_pow256_8();
    let e = head_enc(major, arg);
    let s = e + rest;
    if arg < 24 {
        lemma_head_byte(major, arg);
        assert(s[0] == (major * 32 + arg) as u8);
    } else {
        let width: nat = if arg < 0x100 {
            1
        } else if arg < 0x10000 {
            2
        } else if arg < 0x100000000 {
            4
        } else {
            8
        };
        let info: nat = if arg < 0x100 {
            24
        } else if arg < 0x10000 {
            25
        } else if arg < 0x100000000 {
            26
        } else {
            27
        };
        lemma_head_byte(major, info);
        lemma_be_bytes_len(arg, width);
        assert(s[0] == (major * 32 + info) as u8);
        assert(s.subrange(1, 1 + width as int) =~= be_bytes(arg, width));
        if arg < 0x100 {
            lemma_be_round_trip(arg, 1);
        } else if arg < 0x10000 {
            lemma_be_round_trip(arg, 2);
        } else if arg < 0x100000000 {
            lemma_be_round_trip(arg, 4);
        } else {
            lemma_be_round_trip(arg, 8);
        }
    }
}

/// Append the header for (`major`, `arg`) to `out`.
pub fn push_head(out: &mut Vec<u8>, major: u8, arg: u64)
    requires
        major < 8,
    ensures
        final(out)@ == old(out)@ + head_enc(major as nat, arg as nat),
{
    proof {
        lemma_pow256_8();
        lemma_head_byte(major as nat, 24);
        lemma_head_byte(major as nat, 25);
        lemma_head_byte(major as nat, 26);
        lemma_head_byte(major as nat, 27);
    }
    if arg < 24 {
        proof {
            lemma_head_byte(major as nat, arg as nat);
        }
        out.push(major * 32 + arg as u8);
    } else if arg < 0x100 {
        out.push(major * 32 + 24);
        let mut tail = encode_be(arg, 1);
        out.append(&mut tail);
    } else if arg < 0x10000 {
        out.push(major * 32 + 25);
        let mut tail = encode_be(arg, 2);
        out.append(&mut tail);
    } else if arg < 0x100000000 {
        out.push(major * 32 + 26);
        let mut tail = encode_be(arg, 4);
        out.append(&mut tail);
    } else {
        out.push(major * 32 + 27);
        let mut tail = encode_be(arg, 8);
        out.append(&mut tail);
    }
}

// ---------------------------------------------------------------------------
// Items.
// ---------------------------------------------------------------------------
/// Encoding of an unsigned integer item.
pub open spec fn uint_enc(v: nat) -> Seq<u8> {
    head_enc(0, v)
}

/// Parse an unsigned integer item from the front of `s`.
pub open spec fn uint_dec(s: Seq<u8>) -> Option<(nat, int)> {
    match head_dec(s) {
        Some((major, arg, used)) => if major == 0 {
            Some((arg, used))
        } else {
            None
        },
        None => None,
    }
}

/// Encoding of a text item: a length header followed by the UTF-8 bytes.
pub open spec fn text_enc(t: Seq<char>) -> Seq<u8> {
    head_enc(3, encode_utf8(t).len()) + encode_utf8(t)
}

/// Parse a text item from the front of `s`.
pub open spec fn text_dec(s: Seq<u8>) -> Option<(Seq<char>, int)> {
    match head_dec(s) {
        Some((major, arg, used)) => if major == 3 && used + arg <= s.len() {
            if valid_utf8(s.subrange(used, used + arg)) {
                Some((decode_utf8(s.subrange(used, used + arg)), used + arg))
            } else {
                None
            }
        } else {
            None
        },
        None => None,
    }
}

/// Encoding of a byte-string item.
pub open spec fn raw_enc(b: Seq<u8>) -> Seq<u8> {
    head_enc(2, b.len()) + b
}

/// Parse a byte-string item from the front of `s`.
pub open spec fn raw_dec(s: Seq<u8>) -> Option<(Seq<u8>, int)> {
    match head_dec(s) {
        Some((major, arg, used)) => if major == 2 && used + arg <= s.len() {
            Some((s.subrange(used, used + arg), used + arg))
        } else {
            None
        },
        None => None,
    }
}

/// The byte standing for `false`.
pub const FALSE_BYTE: u8 = 0xf4;

/// The byte standing for `true`.
pub const TRUE_BYTE: u8 = 0xf5;

/// The byte standing for an absent optional value.
pub const NULL_BYTE: u8 = 0xf6;

/// Encoding of a boolean item.
pub open spec fn bool_enc(x: bool) -> Seq<u8> {
    if x {
        seq![TRUE_BYTE]
    } else {
        seq![FALSE_BYTE]
    }
}

/// Parse a boolean item from the front of `s`.
pub open spec fn bool_dec(s: Seq<u8>) -> Option<(bool, int)> {
    if s.len() >= 1 && s[0] == FALSE_BYTE {
        Some((false, 1))
    } else if s.len() >= 1 && s[0] == TRUE_BYTE {
        Some((true, 1))
    } else {
        None
    }
}

/// Encoding of an optional text item: null, or the text itself.
pub open spec fn opt_text_enc(o: Option<Seq<char>>) -> Seq<u8> {
    match o {
        Some(t) => text_enc(t),
        None => seq![NULL_BYTE],
    }
}

/// Parse an optional text item from the front of `s`.
pub open spec fn opt_text_dec(s: Seq<u8>) -> Option<(Option<Seq<char>>, int)> {
    if s.len() >= 1 && s[0] == NULL_BYTE {
        Some((None, 1))
    } else {
        match text_dec(s) {
            Some((t, used)) => Some((Some(t), used)),
            None => None,
        }
    }
}

/// Encoding of an optional unsigned integer item.
pub open spec fn opt_uint_enc(o: Option<nat>) -> Seq<u8> {
    match o {
        Some(v) => uint_enc(v),
        None => seq![NULL_BYTE],
    }
}

/// Parse an optional unsigned integer item from the front of `s`.
pub open spec fn opt_uint_dec(s: Seq<u8>) -> Option<(Option<nat>, int)> {
    if s.len() >= 1 && s[0] == NULL_BYTE {
        Some((None, 1))
    } else {
        match uint_dec(s) {
            Some((v, used)) => Some((Some(v), used)),
            None => None,
        }
    }
}

/// Encoding of the header of an array of `n` items.
pub open spec fn arr_enc(n: nat) -> Seq<u8> {
    head_enc(4, n)
}

/// Parse an array header from the front of `s`: the item count.
pub open spec fn arr_dec(s: Seq<u8>) -> Option<(nat, int)> {
    match head_dec(s) {
        Some((major, arg, used)) => if major == 4 {
            Some((arg, used))
        } else {
            None
        },
        None => None,
    }
}

/// Encoding of a sequence of text items, one after the other.
pub open spec fn texts_enc(l: Seq<Seq<char>>) -> Seq<u8>
    decreases l.len(),
{
    if l.len() == 0 {
        Seq::empty()
    } else {
        text_enc(l[0]) + texts_enc(l.drop_first())
    }
}

/// Parse `k` consecutive text items from the front of `s`.
pub open spec fn texts_dec(s: Seq<u8>, k: nat) -> Option<(Seq<Seq<char>>, int)>
    decreases k,
{
    if k == 0 {
        Some((Seq::empty(), 0))
    } else {
        match text_dec(s) {
            Some((t, used)) => match texts_dec(s.subrange(used, s.len() as int), (k - 1) as nat) {
                Some((l, used2)) => Some((seq![t] + l, used + used2)),
                None => None,
            },
            None => None,
        }
    }
}

/// Encoding of a list of texts: an array header followed by the texts.
pub open spec fn text_list_enc(l: Seq<Seq<char>>) -> Seq<u8> {
    arr_enc(l.len()) + texts_enc(l)
}

/// Parse a list of texts from the front of `s`.
pub open spec fn text_list_dec(s: Seq<u8>) -> Option<(Seq<Seq<char>>, int)> {
    match arr_dec(s) {
        Some((k, used)) => match texts_dec(s.subrange(used, s.len() as int), k) {
            Some((l, used2)) => Some((l, used + used2)),
            None => None,
        },
        None => None,
    }
}

// ---------------------------------------------------------------------------
// Round-trip lemmas: each parser inverts its encoder under any suffix.
// ---------------------------------------------------------------------------
/// True when a text value fits the wire format's length header.
pub open spec fn text_fits(t: Seq<char>) -> bool {
    encode_utf8(t).len() < pow256(8)
}

pub proof fn lemma_uint_round_trip(v: nat, rest: Seq<u8>)
    requires
        v < pow256(8),
    ensures
        uint_dec(uint_enc(v) + rest) == Some((v, uint_enc(v).len() as int)),
        uint_enc(v).len() >= 1,
{
    lemma_head_round_trip(0, v, rest);
}

pub proof fn lemma_text_round_trip(t: Seq<char>, rest: Seq<u8>)
    requires
        text_fits(t),
    ensures
        text_dec(text_enc(t) + rest) == Some((t, text_enc(t).len() as int)),
        text_enc(t).len() >= 1,
{
    let payload = encode_utf8(t);
    let hd = head_enc(3, payload.len());
    lemma_head_round_trip(3, payload.len(), payload + rest);
    let s = text_enc(t) + rest;
    assert(s =~= hd + (payload + rest));
    assert(head_dec(s) == Some((3nat, payload.len() as nat, hd.len() as int)));
    assert(s.subrange(hd.len() as int, hd.len() + payload.len() as int) =~= payload);
    vstd::utf8::encode_utf8_valid_utf8(t);
    vstd::utf8::encode_utf8_decode_utf8(t);
}

pub proof fn lemma_raw_round_trip(b: Seq<u8>, rest: Seq<u8>)
    requires
        b.len() < pow256(8),
    ensures
        raw_dec(raw_enc(b) + rest) == Some((b, raw_enc(b).len() as int)),
        raw_enc(b).len() >= 1,
{
    let hd = head_enc(2, b.len());
    lemma_head_round_trip(2, b.len(), b + rest);
    let s = raw_enc(b) + rest;
    assert(s =~= hd + (b + rest));
    assert(s.subrange(hd.len() as int, hd.len() + b.len() as int) =~= b);
}

pub proof fn lemma_bool_round_trip(x: bool, rest: Seq<u8>)
    ensures
        bool_dec(bool_enc(x) + rest) == Some((x, 1int)),
{
    assert((bool_enc(x) + rest)[0] == bool_enc(x)[0]);
}

/// The first byte of any header, and so of any text or integer item, is
/// below the null byte.
proof fn lemma_head_first_byte(major: nat, arg: nat)
    requires
        major < 6,
    ensures
        head_enc(major, arg).len() >= 1,
        (head_enc(major, arg)[0] as nat) < 0xf4,
{
    if arg < 24 {
        lemma_head_byte(major, arg);
        assert(major * 32 + arg < 0xf4) by (nonlinear_arith)
            requires
                major < 6,
                arg < 24,
        ;
    } else {
        let info: nat = if arg < 0x100 {
            24
        } else if arg < 0x10000 {
            25
        } else if arg < 0x100000000 {
            26
        } else {
            27
        };
        lemma_head_byte(major, info);
        assert(major * 32 + info < 0xf4) by (nonlinear_arith)
            requires
                major < 6,
                info < 28,
        ;
    }
}

pub proof fn lemma_opt_text_round_trip(o: Option<Seq<char>>, rest: Seq<u8>)
    requires
        o matches Some(t) ==> text_fits(t),
    ensures
        opt_text_dec(opt_text_enc(o) + rest) == Some((o, opt_text_enc(o).len() as int)),
        opt_text_enc(o).len() >= 1,
{
    match o {
        None => {
            assert((opt_text_enc(o) + rest)[0] == NULL_BYTE);
        },
        Some(t) => {
            lemma_text_round_trip(t, rest);
            lemma_head_first_byte(3, encode_utf8(t).len());
            assert((text_enc(t) + rest)[0] == head_enc(3, encode_utf8(t).len())[0]);
        },
    }
}

pub proof fn lemma_opt_uint_round_trip(o: Option<nat>, rest: Seq<u8>)
    requires
        o matches Some(v) ==> v < pow256(8),
    ensures
        opt_uint_dec(opt_uint_enc(o) + rest) == Some((o, opt_uint_enc(o).len() as int)),
        opt_uint_enc(o).len() >= 1,
{
    match o {
        None => {
            assert((opt_uint_enc(o) + rest)[0] == NULL_BYTE);
        },
        Some(v) => {
            lemma_uint_round_trip(v, rest);
            lemma_head_first_byte(0, v);
            assert((uint_enc(v) + rest)[0] == head_enc(0, v)[0]);
        },
    }
}

pub proof fn lemma_texts_round_trip(l: Seq<Seq<char>>, rest: Seq<u8>)
    requires
        forall|i: int| 0 <= i < l.len() ==> text_fits(#[trigger] l[i]),
    ensures
        texts_dec(texts_enc(l) + rest, l.len()) == Some((l, texts_enc(l).len() as int)),
    decreases l.len(),
{
    if l.len() == 0 {
        assert(texts_enc(l) + rest =~= rest);
        assert(seq![] + l =~= l);
    } else {
        let t0 = l[0];
        let tail = l.drop_first();
        let e0 = text_enc(t0);
        let etail = texts_enc(tail);
        let s = texts_enc(l) + rest;
        assert(s =~= e0 + (etail + rest));
        lemma_text_round_trip(t0, etail + rest);
        assert(s.subrange(e0.len() as int, s.len() as int) =~= etail + rest);
        lemma_texts_round_trip(tail, rest);
        assert(seq![t0] + tail =~= l);
    }
}

pub proof fn lemma_text_list_round_trip(l: Seq<Seq<char>>, rest: Seq<u8>)
    requires
        l.len() < pow256(8),
        forall|i: int| 0 <= i < l.len() ==> text_fits(#[trigger] l[i]),
    ensures
        text_list_dec(text_list_enc(l) + rest) == Some((l, text_list_enc(l).len() as int)),
        text_list_enc(l).len() >= 1,
{
    let hd = arr_enc(l.len());
    let s = text_list_enc(l) + rest;
    assert(s =~= hd + (texts_enc(l) + rest));
    lemma_head_round_trip(4, l.len(), texts_enc(l) + rest);
    assert(s.subrange(hd.len() as int, s.len() as int) =~= texts_enc(l) + rest);
    lemma_texts_round_trip(l, rest);
}

// ---------------------------------------------------------------------------
// View helpers for optional and repeated string values.
// ---------------------------------------------------------------------------
/// The character-sequence view of an optional string.
pub open spec fn opt_str_view(o: Option<String>) -> Option<Seq<char>> {
    match o {
        Some(s) => Some(s@),
        None => None,
    }
}

/// The numeric view of an optional 64-bit integer.
pub open spec fn opt_u64_view(o: Option<u64>) -> Option<nat> {
    match o {
        Some(v) => Some(v as nat),
        None => None,
    }
}

/// The character-sequence views of a list of strings.
pub open spec fn strs_view(l: Seq<String>) -> Seq<Seq<char>> {
    l.map_values(|s: String| s@)
}

/// Read an item header at `pos`: `(major, arg, next position)`.
pub fn read_head(data: &Vec<u8>, pos: usize) -> (r: Option<(u8, u64, usize)>)
    requires
        pos <= data@.len(),
    ensures
        ({
            let tail = data@.subrange(pos as int, data@.len() as int);
            match r {
                Some((major, arg, p2)) => head_dec(tail) == Some(
                    (major as nat, arg as nat, p2 - pos),
                ) && pos < p2 <= data@.len() && major < 8,
                None => head_dec(tail) is None,
            }
        }),
{
    let ghost tail = data@.subrange(pos as int, data@.len() as int);
    if pos >= data.len() {
        return None;
    }
    let b = data[pos];
    let major = b / 32;
    let info = b % 32;
    proof {
        assert(tail[0] == data@[pos as int]);
        assert(tail.len() == data@.len() - pos);
    }
    if info < 24 {
        Some((major, info as u64, pos + 1))
    } else if info == 24 {
        if data.len() - pos >= 2 {
            let v = read_be(data, pos + 1, 1);
            proof {
                assert(tail.subrange(1, 2) =~= data@.subrange(pos + 1 as int, pos + 2 as int));
            }
            Some((major, v, pos + 2))
        } else {
            None
        }
    } else if info == 25 {
        if data.len() - pos >= 3 {
            let v = read_be(data, pos + 1, 2);
            proof {
                assert(tail.subrange(1, 3) =~= data@.subrange(pos + 1 as int, pos + 3 as int));
            }
            Some((major, v, pos + 3))
        } else {
            None
        }
    } else if info == 26 {
        if data.len() - pos >= 5 {
            let v = read_be(data, pos + 1, 4);
            proof {
                assert(tail.subrange(1, 5) =~= data@.subrange(pos + 1 as int, pos + 5 as int));
            }
            Some((major, v, pos + 5))
        } else {
            None
        }
    } else if info == 27 {
        if data.len() - pos >= 9 {
            let v = read_be(data, pos + 1, 8);
            proof {
                assert(tail.subrange(1, 9) =~= data@.subrange(pos + 1 as int, pos + 9 as int));
            }
            Some((major, v, pos + 9))
        } else {
            None
        }
    } else {
        None
    }
}

// ---------------------------------------------------------------------------
// Executable item encoders.  Each appends the spec-level encoding to `out`.
// ---------------------------------------------------------------------------
/// Append an unsigned integer item.
pub fn push_uint(out: &mut Vec<u8>, v: u64)
    ensures
        final(out)@ == old(out)@ + uint_enc(v as nat),
{
    push_head(out, 0, v);
}

/// Append a text item.
pub fn push_text(out: &mut Vec<u8>, s: &str)
    ensures
        final(out)@ == old(out)@ + text_enc(s@),
{
    let bytes = s.as_bytes();
    push_head(out, 3, bytes.len() as u64);
    out.extend_from_slice(bytes);
    proof {
        assert(out@ =~= old(out)@ + text_enc(s@));
    }
}

/// Append a byte-string item.
pub fn push_raw(out: &mut Vec<u8>, b: &Vec<u8>)
    ensures
        final(out)@ == old(out)@ + raw_enc(b@),
{
    push_head(out, 2, b.len() as u64);
    out.extend_from_slice(b.as_slice());
    proof {
        assert(out@ =~= old(out)@ + raw_enc(b@));
    }
}

/// Append a boolean item.
pub fn push_bool(out: &mut Vec<u8>, x: bool)
    ensures
        final(out)@ == old(out)@ + bool_enc(x),
{
    if x {
        out.push(TRUE_BYTE);
    } else {
        out.push(FALSE_BYTE);
    }
    proof {
        assert(out@ =~= old(out)@ + bool_enc(x));
    }
}

/// Append an optional text item.
pub fn push_opt_text(out: &mut Vec<u8>, o: &Option<String>)
    ensures
        final(out)@ == old(out)@ + opt_text_enc(opt_str_view(*o)),
{
    match o {
        Some(s) => {
            push_text(out, s.as_str());
        },
        None => {
            out.push(NULL_BYTE);
            proof {
                assert(out@ =~= old(out)@ + seq![NULL_BYTE]);
            }
        },
    }
}

/// Append an optional unsigned integer item.
pub fn push_opt_u64(out: &mut Vec<u8>, o: &Option<u64>)
    ensures
        final(out)@ == old(out)@ + opt_uint_enc(opt_u64_view(*o)),
{
    match o {
        Some(v) => {
            push_uint(out, *v);
        },
        None => {
            out.push(NULL_BYTE);
            proof {
                assert(out@ =~= old(out)@ + seq![NULL_BYTE]);
            }
        },
    }
}

proof fn lemma_texts_enc_push(l: Seq<Seq<char>>, t: Seq<char>)
    ensures
        texts_enc(l.push(t)) == texts_enc(l) + text_enc(t),
    decreases l.len(),
{
    if l.len() == 0 {
        assert(l.push(t)[0] == t);
        assert(l.push(t).drop_first() =~= l);
        assert(texts_enc(l.push(t)) =~= texts_enc(l) + text_enc(t));
    } else {
        assert(l.push(t)[0] == l[0]);
        assert(l.push(t).drop_first() =~= l.drop_first().push(t));
        lemma_texts_enc_push(l.drop_first(), t);
        assert(text_enc(l[0]) + (texts_enc(l.drop_first()) + text_enc(t)) =~= (text_enc(l[0])
            + texts_enc(l.drop_first())) + text_enc(t));
    }
}

/// Append a list of text items with its array header.
pub fn push_text_list(out: &mut Vec<u8>, l: &Vec<String>)
    ensures
        final(out)@ == old(out)@ + text_list_enc(strs_view(l@)),
{
    push_head(out, 4, l.len() as u64);
    let mut i: usize = 0;
    while i < l.len()
        invariant
            i <= l@.len(),
            out@ == old(out)@ + arr_enc(l@.len() as nat) + texts_enc(
                strs_view(l@.subrange(0, i as int)),
            ),
        decreases l@.len() - i,
    {
        push_text(out, l[i].as_str());
        proof {
            let pre = strs_view(l@.subrange(0, i as int));
            let cur = strs_view(l@.subrange(0, i + 1 as int));
            assert(cur =~= pre.push(l@[i as int]@));
            lemma_texts_enc_push(pre, l@[i as int]@);
            assert(old(out)@ + arr_enc(l@.len() as nat) + (texts_enc(pre) + text_enc(
                l@[i as int]@,
            )) =~= (old(out)@ + arr_enc(l@.len() as nat) + texts_enc(pre)) + text_enc(
                l@[i as int]@,
            ));
        }
        i = i + 1;
    }
    proof {
        assert(l@.subrange(0, l@.len() as int) =~= l@);
        assert(old(out)@ + arr_enc(l@.len() as nat) + texts_enc(strs_view(l@)) =~= old(out)@
            + text_list_enc(strs_view(l@)));
    }
}

// ---------------------------------------------------------------------------
// Executable item readers.  Each is pinned to its spec-level parser applied
// to the byte suffix starting at `pos`.
// ---------------------------------------------------------------------------
/// Relies on `String::from_utf8`: it returns the string whose UTF-8
/// encoding is the given bytes, and fails exactly on bytes that are not
/// valid UTF-8.
#[verifier::external_body]
fn string_from_utf8(bytes: Vec<u8>) -> (r: Option<String>)
    ensures
        (r matches Some(s) ==> encode_utf8(s@) == bytes@),
        (r is None ==> !valid_utf8(bytes@)),
        valid_utf8(bytes@) ==> r is Some,
{
    String::from_utf8(bytes).ok()
}

/// Read an unsigned integer item at `pos`.
pub fn read_uint(data: &Vec<u8>, pos: usize) -> (r: Option<(u64, usize)>)
    requires
        pos <= data@.len(),
    ensures
        ({
            let tail = data@.subrange(pos as int, data@.len() as int);
            match r {
                Some((v, p2)) => pos < p2 <= data@.len() && uint_dec(tail) == Some(
                    (v as nat, p2 - pos),
                ),
                None => uint_dec(tail) is None,
            }
        }),
{
    match read_head(data, pos) {
        Some((major, arg, p2)) => if major == 0 {
            Some((arg, p2))
        } else {
            None
        },
        None => None,
    }
}

/// Read a text item at `pos`.
pub fn read_text(data: &Vec<u8>, pos: usize) -> (r: Option<(String, usize)>)
    requires
        pos <= data@.len(),
    ensures
        ({
            let tail = data@.subrange(pos as int, data@.len() as int);
            match r {
                Some((s, p2)) => pos < p2 <= data@.len() && text_dec(tail) == Some(
                    (s@, p2 - pos),
                ),
                None => text_dec(tail) is None,
            }
        }),
{
    let ghost tail = data@.subrange(pos as int, data@.len() as int);
    match read_head(data, pos) {
        Some((major, arg, p2)) => {
            if major != 3 {
                return None;
            }
            let len = data.len();
            if arg > (len - p2) as u64 {
                return None;
            }
            let n = arg as usize;
            let payload = vstd::slice::slice_subrange(data.as_slice(), p2, p2 + n);
            let bytes = vstd::slice::slice_to_vec(payload);
            proof {
                assert(bytes@ =~= tail.subrange(p2 - pos, p2 - pos + arg));
            }
            match string_from_utf8(bytes) {
                Some(s) => {
                    proof {
                        vstd::utf8::encode_utf8_valid_utf8(s@);
                        vstd::utf8::encode_utf8_decode_utf8(s@);
                    }
                    Some((s, p2 + n))
                },
                None => None,
            }
        },
        None => None,
    }
}

/// Read a byte-string item at `pos`.
pub fn read_raw(data: &Vec<u8>, pos: usize) -> (r: Option<(Vec<u8>, usize)>)
    requires
        pos <= data@.len(),
    ensures
        ({
            let tail = data@.subrange(pos as int, data@.len() as int);
            match r {
                Some((b, p2)) => pos < p2 <= data@.len() && raw_dec(tail) == Some(
                    (b@, p2 - pos),
                ),
                None => raw_dec(tail) is None,
            }
        }),
{
    let ghost tail = data@.subrange(pos as int, data@.len() as int);
    match read_head(data, pos) {
        Some((major, arg, p2)) => {
            if major != 2 {
                return None;
            }
            let len = data.len();
            if arg > (len - p2) as u64 {
                return None;
            }
            let n = arg as usize;
            let payload = vstd::slice::slice_subrange(data.as_slice(), p2, p2 + n);
            let bytes = vstd::slice::slice_to_vec(payload);
            proof {
                assert(bytes@ =~= tail.subrange(p2 - pos, p2 - pos + arg));
            }
            Some((bytes, p2 + n))
        },
        None => None,
    }
}

/// Read a boolean item at `pos`.
pub fn read_bool(data: &Vec<u8>, pos: usize) -> (r: Option<(bool, usize)>)
    requires
        pos <= data@.len(),
    ensures
        ({
            let tail = data@.subrange(pos as int, data@.len() as int);
            match r {
                Some((x, p2)) => pos < p2 <= data@.len() && bool_dec(tail) == Some(
                    (x, p2 - pos),
                ),
                None => bool_dec(tail) is None,
            }
        }),
{
    if pos >= data.len() {
        return None;
    }
    let b = data[pos];
    proof {
        assert(data@.subrange(pos as int, data@.len() as int)[0] == data@[pos as int]);
    }
    if b == FALSE_BYTE {
        Some((false, pos + 1))
    } else if b == TRUE_BYTE {
        Some((true, pos + 1))
    } else {
        None
    }
}

/// Read an optional text item at `pos`.
pub fn read_opt_text(data: &Vec<u8>, pos: usize) -> (r: Option<(Option<String>, usize)>)
    requires
        pos <= data@.len(),
    ensures
        ({
            let tail = data@.subrange(pos as int, data@.len() as int);
            match r {
                Some((o, p2)) => pos < p2 <= data@.len() && opt_text_dec(tail) == Some(
                    (opt_str_view(o), p2 - pos),
                ),
                None => opt_text_dec(tail) is None,
            }
        }),
{
    proof {
        if pos < data@.len() {
            assert(data@.subrange(pos as int, data@.len() as int)[0] == data@[pos as int]);
        }
    }
    if pos < data.len() && data[pos] == NULL_BYTE {
        return Some((None, pos + 1));
    }
    match read_text(data, pos) {
        Some((s, p2)) => Some((Some(s), p2)),
        None => None,
    }
}

/// Read an optional unsigned integer item at `pos`.
pub fn read_opt_u64(data: &Vec<u8>, pos: usize) -> (r: Option<(Option<u64>, usize)>)
    requires
        pos <= data@.len(),
    ensures
        ({
            let tail = data@.subrange(pos as int, data@.len() as int);
            match r {
                Some((o, p2)) => pos < p2 <= data@.len() && opt_uint_dec(tail) == Some(
                    (opt_u64_view(o), p2 - pos),
                ),
                None => opt_uint_dec(tail) is None,
            }
        }),
{
    proof {
        if pos < data@.len() {
            assert(data@.subrange(pos as int, data@.len() as int)[0] == data@[pos as int]);
        }
    }
    if pos < data.len() && data[pos] == NULL_BYTE {
        return Some((None, pos + 1));
    }
    match read_uint(data, pos) {
        Some((v, p2)) => Some((Some(v), p2)),
        None => None,
    }
}

/// Read `k` consecutive text items at `pos`.
fn read_texts(data: &Vec<u8>, pos: usize, k: u64) -> (r: Option<(Vec<String>, usize)>)
    requires
        pos <= data@.len(),
    ensures
        ({
            let tail = data@.subrange(pos as int, data@.len() as int);
            match r {
                Some((l, p2)) => pos <= p2 <= data@.len() && texts_dec(tail, k as nat) == Some(
                    (strs_view(l@), p2 - pos),
                ),
                None => texts_dec(tail, k as nat) is None,
            }
        }),
{
    let mut acc: Vec<String> = Vec::new();
    let mut cur: usize = pos;
    let mut i: u64 = 0;
    while i < k
        invariant
            i <= k,
            pos <= cur <= data@.len(),
            ({
                let t0 = data@.subrange(pos as int, data@.len() as int);
                let tc = data@.subrange(cur as int, data@.len() as int);
                match texts_dec(tc, (k - i) as nat) {
                    Some(res) => texts_dec(t0, k as nat) == Some(
                        (strs_view(acc@) + res.0, cur - pos + res.1),
                    ),
                    None => texts_dec(t0, k as nat) is None,
                }
            }),
        decreases k - i,
    {
        let ghost t0 = data@.subrange(pos as int, data@.len() as int);
        let ghost tc = data@.subrange(cur as int, data@.len() as int);
        match read_text(data, cur) {
            None => {
                return None;
            },
            Some((s, cur2)) => {
                proof {
                    let used = cur2 - cur;
                    assert(tc.subrange(used, tc.len() as int) =~= data@.subrange(
                        cur2 as int,
                        data@.len() as int,
                    ));
                    let tn = data@.subrange(cur2 as int, data@.len() as int);
                    match texts_dec(tn, (k - i - 1) as nat) {
                        Some(res2) => {
                            assert(texts_dec(tc, (k - i) as nat) == Some(
                                (seq![s@] + res2.0, used + res2.1),
                            ));
                            assert(strs_view(acc@.push(s)) =~= strs_view(acc@).push(s@));
                            assert(strs_view(acc@) + (seq![s@] + res2.0) =~= strs_view(
                                acc@.push(s),
                            ) + res2.0);
                        },
                        None => {
                            assert(texts_dec(tc, (k - i) as nat) is None);
                        },
                    }
                }
                acc.push(s);
                cur = cur2;
                i = i + 1;
            },
        }
    }
    proof {
        let tc = data@.subrange(cur as int, data@.len() as int);
        assert(texts_dec(tc, 0) == Some((Seq::<Seq<char>>::empty(), 0int)));
        assert(strs_view(acc@) + Seq::<Seq<char>>::empty() =~= strs_view(acc@));
    }
    Some((acc, cur))
}

/// Read a list of text items with its array header at `pos`.
pub fn read_text_list(data: &Vec<u8>, pos: usize) -> (r: Option<(Vec<String>, usize)>)
    requires
        pos <= data@.len(),
    ensures
        ({
            let tail = data@.subrange(pos as int, data@.len() as int);
            match r {
                Some((l, p2)) => pos < p2 <= data@.len() && text_list_dec(tail) == Some(
                    (strs_view(l@), p2 - pos),
                ),
                None => text_list_dec(tail) is None,
            }
        }),
{
    let ghost tail = data@.subrange(pos as int, data@.len() as int);
    match read_head(data, pos) {
        Some((major, arg, p2)) => {
            if major != 4 {
                return None;
            }
            proof {
                assert(tail.subrange(p2 - pos, tail.len() as int) =~= data@.subrange(
                    p2 as int,
                    data@.len() as int,
                ));
            }
            match read_texts(data, p2, arg) {
                Some((l, p3)) => Some((l, p3)),
                None => None,
            }
        },
        None => None,
    }
}


/// Concatenation is associative.
pub proof fn lemma_cat_assoc(a: Seq<u8>, b: Seq<u8>, c: Seq<u8>)
    ensures
        (a + b) + c == a + (b + c),
{
    assert((a + b) + c =~= a + (b + c));
}

/// Peel an unsigned integer item off the front of a byte sequence.
pub proof fn lemma_peel_uint(v: nat, rest: Seq<u8>)
    requires
        v < pow256(8),
    ensures
        ({
            let e = uint_enc(v);
            let s = e + rest;
            &&& uint_dec(s) == Some((v, e.len() as int))
            &&& e.len() >= 1
            &&& s.subrange(e.len() as int, s.len() as int) == rest
        }),
{
    lemma_uint_round_trip(v, rest);
    let e = uint_enc(v);
    assert((e + rest).subrange(e.len() as int, (e + rest).len() as int) =~= rest);
}

/// Peel a text item off the front of a byte sequence.
pub proof fn lemma_peel_text(t: Seq<char>, rest: Seq<u8>)
    requires
        text_fits(t),
    ensures
        ({
            let e = text_enc(t);
            let s = e + rest;
            &&& text_dec(s) == Some((t, e.len() as int))
            &&& e.len() >= 1
            &&& s.subrange(e.len() as int, s.len() as int) == rest
        }),
{
    lemma_text_round_trip(t, rest);
    let e = text_enc(t);
    assert((e + rest).subrange(e.len() as int, (e + rest).len() as int) =~= rest);
}

/// Peel a byte-string item off the front of a byte sequence.
pub proof fn lemma_peel_raw(b: Seq<u8>, rest: Seq<u8>)
    requires
        b.len() < pow256(8),
    ensures
        ({
            let e = raw_enc(b);
            let s = e + rest;
            &&& raw_dec(s) == Some((b, e.len() as int))
            &&& e.len() >= 1
            &&& s.subrange(e.len() as int, s.len() as int) == rest
        }),
{
    lemma_raw_round_trip(b, rest);
    let e = raw_enc(b);
    assert((e + rest).subrange(e.len() as int, (e + rest).len() as int) =~= rest);
}

/// Peel a boolean item off the front of a byte sequence.
pub proof fn lemma_peel_bool(x: bool, rest: Seq<u8>)
    ensures
        ({
            let e = bool_enc(x);
            let s = e + rest;
            &&& bool_dec(s) == Some((x, 1int))
            &&& e.len() == 1
            &&& s.subrange(1, s.len() as int) == rest
        }),
{
    lemma_bool_round_trip(x, rest);
    let e = bool_enc(x);
    assert((e + rest).subrange(e.len() as int, (e + rest).len() as int) =~= rest);
}

/// Peel an optional text item off the front of a byte sequence.
pub proof fn lemma_peel_opt_text(o: Option<Seq<char>>, rest: Seq<u8>)
    requires
        o matches Some(t) ==> text_fits(t),
    ensures
        ({
            let e = opt_text_enc(o);
            let s = e + rest;
            &&& opt_text_dec(s) == Some((o, e.len() as int))
            &&& e.len() >= 1
            &&& s.subrange(e.len() as int, s.len() as int) == rest
        }),
{
    lemma_opt_text_round_trip(o, rest);
    let e = opt_text_enc(o);
    assert((e + rest).subrange(e.len() as int, (e + rest).len() as int) =~= rest);
}

/// Peel an optional unsigned integer item off the front of a byte sequence.
pub proof fn lemma_peel_opt_uint(o: Option<nat>, rest: Seq<u8>)
    requires
        o matches Some(v) ==> v < pow256(8),
    ensures
        ({
            let e = opt_uint_enc(o);
            let s = e + rest;
            &&& opt_uint_dec(s) == Some((o, e.len() as int))
            &&& e.len() >= 1
            &&& s.subrange(e.len() as int, s.len() as int) == rest
        }),
{
    lemma_opt_uint_round_trip(o, rest);
    let e = opt_uint_enc(o);
    assert((e + rest).subrange(e.len() as int, (e + rest).len() as int) =~= rest);
}

/// Peel a list of text items off the front of a byte sequence.
pub proof fn lemma_peel_text_list(l: Seq<Seq<char>>, rest: Seq<u8>)
    requires
        l.len() < pow256(8),
        forall|i: int| 0 <= i < l.len() ==> text_fits(#[trigger] l[i]),
    ensures
        ({
            let e = text_list_enc(l);
            let s = e + rest;
            &&& text_list_dec(s) == Some((l, e.len() as int))
            &&& e.len() >= 1
            &&& s.subrange(e.len() as int, s.len() as int) == rest
        }),
{
    lemma_text_list_round_trip(l, rest);
    let e = text_list_enc(l);
    assert((e + rest).subrange(e.len() as int, (e + rest).len() as int) =~= rest);
}

} // verus!
