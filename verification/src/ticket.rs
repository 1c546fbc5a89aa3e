//! Blob tickets and the chunked download plan.  A ticket is a small text
//! record naming a file's content hash, size, name and server path; the
//! shell computes the hash and serves the bytes, this module builds and
//! reads the record and plans the ranged requests of a download.
use vstd::prelude::*;

use crate::address::expect_lit;
use crate::address::lemma_char_tail_shift;
use crate::address::push_quoted;
use crate::address::quoted;
use crate::address::quoted_dec;
use crate::address::read_quoted;
use crate::address::str_chars_vec;
use crate::address::string_push_char;
use vstd::string::StringExecFns;

verus! {

/// A parsed blob ticket.
#[derive(Debug, Clone, PartialEq)]
pub struct ParsedBlobTicket {
    pub hash: String,
    pub file_size: u64,
    pub filename: String,
    pub file_path: String,
}

pub struct ParsedBlobTicketV {
    pub hash: Seq<char>,
    pub file_size: u64,
    pub filename: Seq<char>,
    pub file_path: Seq<char>,
}

impl View for ParsedBlobTicket {
    type V = ParsedBlobTicketV;

    open spec fn view(&self) -> ParsedBlobTicketV {
        ParsedBlobTicketV {
            hash: self.hash@,
            file_size: self.file_size,
            filename: self.filename@,
            file_path: self.file_path@,
        }
    }
}

// ---------------------------------------------------------------------------
// Decimal numbers.
// ---------------------------------------------------------------------------
/// The decimal digit character for a value below ten.
pub open spec fn digit_char(d: nat) -> char
    recommends
        d < 10,
{
    ((d + 48) as u8) as char
}

/// The decimal form of a number.
pub open spec fn dec_str(n: nat) -> Seq<char>
    decreases n,
{
    if n < 10 {
        seq![digit_char(n)]
    } else {
        dec_str(n / 10) + seq![digit_char(n % 10)]
    }
}

/// Append the decimal form of `n` to `out`.
pub fn push_dec(out: &mut String, n: u64)
    ensures
        final(out)@ == old(out)@ + dec_str(n as nat),
    decreases n,
{
    if n < 10 {
        let c = (n as u8 + 48) as char;
        string_push_char(out, c);
        proof {
            assert(old(out)@.push(digit_char(n as nat)) =~= old(out)@ + dec_str(n as nat));
        }
    } else {
        proof {
            assert((n / 10) as nat == (n as nat) / 10);
            assert((n % 10) as nat == (n as nat) % 10);
        }
        push_dec(out, n / 10);
        let c = ((n % 10) as u8 + 48) as char;
        string_push_char(out, c);
        proof {
            assert((old(out)@ + dec_str((n as nat) / 10)).push(digit_char((n as nat) % 10)) =~=
                old(out)@ + dec_str(n as nat));
        }
    }
}

// ---------------------------------------------------------------------------
// The ticket record.
// ---------------------------------------------------------------------------
/// The ticket's text form.
pub open spec fn ticket_enc(t: ParsedBlobTicketV) -> Seq<char> {
    "{\"file_path\":"@ + quoted(t.file_path) + ",\"file_size\":"@ + dec_str(t.file_size as nat)
        + ",\"filename\":"@ + quoted(t.filename) + ",\"hash\":"@ + quoted(t.hash) + "}"@
}

/// Build the ticket record for a hashed file.
pub fn build_blob_ticket(hash: &String, file_size: u64, filename: &String, file_path: &String)
    -> (r: String)
    ensures
        r@ == ticket_enc(
            ParsedBlobTicketV {
                hash: hash@,
                file_size,
                filename: filename@,
                file_path: file_path@,
            },
        ),
{
    let mut out = String::new();
    out.append("{\"file_path\":");
    push_quoted(&mut out, file_path.as_str());
    out.append(",\"file_size\":");
    push_dec(&mut out, file_size);
    out.append(",\"filename\":");
    push_quoted(&mut out, filename.as_str());
    out.append(",\"hash\":");
    push_quoted(&mut out, hash.as_str());
    out.append("}");
    proof {
        assert(out@ =~= ticket_enc(
            ParsedBlobTicketV {
                hash: hash@,
                file_size,
                filename: filename@,
                file_path: file_path@,
            },
        ));
    }
    out
}

/// Parse a decimal number from the front of `s`: digits up to the first
/// non-digit, refusing an empty digit run or a value beyond 64 bits.
pub open spec fn dec_dec(s: Seq<char>, acc: nat, seen_any: bool) -> Option<(nat, int)>
    decreases s.len(),
{
    if s.len() > 0 && '0' <= s[0] <= '9' {
        let d = (s[0] as nat) - 48;
        if acc * 10 + d < 0x10000000000000000 {
            match dec_dec(s.drop_first(), (acc * 10 + d) as nat, true) {
                Some((v, u)) => Some((v, 1 + u)),
                None => None,
            }
        } else {
            None
        }
    } else {
        if seen_any {
            Some((acc, 0))
        } else {
            None
        }
    }
}

/// Read a decimal number at `pos`.
fn read_dec(chars: &Vec<char>, pos: usize) -> (r: Option<(u64, usize)>)
    requires
        pos <= chars@.len(),
    ensures
        ({
            let tail = chars@.subrange(pos as int, chars@.len() as int);
            match r {
                Some((v, p2)) => pos <= p2 <= chars@.len() && dec_dec(tail, 0, false) == Some(
                    (v as nat, p2 - pos),
                ),
                None => dec_dec(tail, 0, false) is None,
            }
        }),
{
    let mut acc: u64 = 0;
    let mut seen_any: bool = false;
    let mut cur: usize = pos;
    loop
        invariant_except_break
            pos <= cur <= chars@.len(),
            ({
                let t0 = chars@.subrange(pos as int, chars@.len() as int);
                let tc = chars@.subrange(cur as int, chars@.len() as int);
                match dec_dec(tc, acc as nat, seen_any) {
                    Some(res) => dec_dec(t0, 0, false) == Some((res.0, cur - pos + res.1)),
                    None => dec_dec(t0, 0, false) is None,
                }
            }),
        ensures
            pos <= cur <= chars@.len(),
            dec_dec(chars@.subrange(pos as int, chars@.len() as int), 0, false) == (if seen_any {
                Some((acc as nat, cur - pos as int))
            } else {
                Option::<(nat, int)>::None
            }),
        decreases chars@.len() - cur,
    {
        proof {
            let tc = chars@.subrange(cur as int, chars@.len() as int);
            if cur < chars@.len() {
                assert(tc[0] == chars@[cur as int]);
                assert(tc.drop_first() =~= chars@.subrange(cur + 1 as int, chars@.len() as int));
            } else {
                assert(tc.len() == 0);
            }
        }
        if cur >= chars.len() {
            break;
        }
        let c = chars[cur];
        if c < '0' || c > '9' {
            break;
        }
        let d = (c as u64) - 48;
        if acc > (0xFFFFFFFFFFFFFFFFu64 - d) / 10 {
            proof {
                let tc = chars@.subrange(cur as int, chars@.len() as int);
                assert((acc as nat) * 10 + ((tc[0] as nat) - 48) >= 0x10000000000000000)
                    by (nonlinear_arith)
                    requires
                        acc as nat > (0xFFFFFFFFFFFFFFFF - ((tc[0] as nat) - 48)) / 10,
                        tc[0] == chars@[cur as int],
                        48 <= (tc[0] as nat) <= 57,
                        d == (tc[0] as nat) - 48,
                ;
            }
            return None;
        }
        proof {
            let tc = chars@.subrange(cur as int, chars@.len() as int);
            assert((acc as nat) * 10 + ((tc[0] as nat) - 48) < 0x10000000000000000)
                by (nonlinear_arith)
                requires
                    acc as nat <= (0xFFFFFFFFFFFFFFFF - ((tc[0] as nat) - 48)) / 10,
                    48 <= (tc[0] as nat) <= 57,
            ;
        }
        acc = acc * 10 + d;
        seen_any = true;
        cur = cur + 1;
    }
    if seen_any {
        Some((acc, cur))
    } else {
        None
    }
}

/// Parse a whole ticket record; the record must be consumed exactly.
pub open spec fn ticket_dec(s: Seq<char>) -> Option<ParsedBlobTicketV> {
    let l0 = "{\"file_path\":"@;
    if crate::address::starts_with(s, l0) {
        let s1 = s.subrange(l0.len() as int, s.len() as int);
        match quoted_dec(s1) {
            Some((file_path, u1)) => {
                let s2 = s1.subrange(u1, s1.len() as int);
                let l1 = ",\"file_size\":"@;
                if crate::address::starts_with(s2, l1) {
                    let s3 = s2.subrange(l1.len() as int, s2.len() as int);
                    match dec_dec(s3, 0, false) {
                        Some((file_size, u2)) => {
                            let s4 = s3.subrange(u2, s3.len() as int);
                            let l2 = ",\"filename\":"@;
                            if crate::address::starts_with(s4, l2) {
                                let s5 = s4.subrange(l2.len() as int, s4.len() as int);
                                match quoted_dec(s5) {
                                    Some((filename, u3)) => {
                                        let s6 = s5.subrange(u3, s5.len() as int);
                                        let l3 = ",\"hash\":"@;
                                        if crate::address::starts_with(s6, l3) {
                                            let s7 = s6.subrange(l3.len() as int, s6.len() as int);
                                            match quoted_dec(s7) {
                                                Some((hash, u4)) => {
                                                    let s8 = s7.subrange(u4, s7.len() as int);
                                                    if s8 =~= "}"@ && file_size
                                                        < 0x10000000000000000 {
                                                        Some(
                                                            (ParsedBlobTicketV {
                                                                hash,
                                                                file_size: file_size as u64,
                                                                filename,
                                                                file_path,
                                                            }),
                                                        )
                                                    } else {
                                                        None
                                                    }
                                                },
                                                None => None,
                                            }
                                        } else {
                                            None
                                        }
                                    },
                                    None => None,
                                }
                            } else {
                                None
                            }
                        },
                        None => None,
                    }
                } else {
                    None
                }
            },
            None => None,
        }
    } else {
        None
    }
}

/// Parse a ticket record.
#[verifier::rlimit(100)]
#[verifier::spinoff_prover]
pub fn parse_blob_ticket(s: &str) -> (r: Option<ParsedBlobTicket>)
    ensures
        (r matches Some(t) ==> ticket_dec(s@) == Some(t@)),
        (r is None ==> ticket_dec(s@) is None),
{
    let chars = str_chars_vec(s);
    proof {
        assert(chars@.subrange(0, chars@.len() as int) =~= chars@);
    }
    let p0 = match expect_lit(&chars, 0, "{\"file_path\":") {
        Some(p) => p,
        None => {
            return None;
        },
    };
    proof {
        lemma_char_tail_shift(chars@, 0, p0 as int);
    }
    let (file_path, p1) = match read_quoted(&chars, p0) {
        Some(x) => x,
        None => {
            return None;
        },
    };
    proof {
        lemma_char_tail_shift(chars@, p0 as int, p1 as int);
    }
    let p2 = match expect_lit(&chars, p1, ",\"file_size\":") {
        Some(p) => p,
        None => {
            return None;
        },
    };
    proof {
        lemma_char_tail_shift(chars@, p1 as int, p2 as int);
    }
    let (file_size, p3) = match read_dec(&chars, p2) {
        Some(x) => x,
        None => {
            return None;
        },
    };
    proof {
        lemma_char_tail_shift(chars@, p2 as int, p3 as int);
    }
    let p4 = match expect_lit(&chars, p3, ",\"filename\":") {
        Some(p) => p,
        None => {
            return None;
        },
    };
    proof {
        lemma_char_tail_shift(chars@, p3 as int, p4 as int);
    }
    let (filename, p5) = match read_quoted(&chars, p4) {
        Some(x) => x,
        None => {
            return None;
        },
    };
    proof {
        lemma_char_tail_shift(chars@, p4 as int, p5 as int);
    }
    let p6 = match expect_lit(&chars, p5, ",\"hash\":") {
        Some(p) => p,
        None => {
            return None;
        },
    };
    proof {
        lemma_char_tail_shift(chars@, p5 as int, p6 as int);
    }
    let (hash, p7) = match read_quoted(&chars, p6) {
        Some(x) => x,
        None => {
            return None;
        },
    };
    proof {
        lemma_char_tail_shift(chars@, p6 as int, p7 as int);
    }
    let p8 = match expect_lit(&chars, p7, "}") {
        Some(p) => p,
        None => {
            proof {
                let t = chars@.subrange(p7 as int, chars@.len() as int);
                reveal_strlit("}");
                if t =~= "}"@ {
                    assert(t.subrange(0, "}"@.len() as int) =~= "}"@);
                    assert(crate::address::starts_with(t, "}"@));
                }
            }
            return None;
        },
    };
    if p8 != chars.len() {
        proof {
            let t = chars@.subrange(p7 as int, chars@.len() as int);
            reveal_strlit("}");
            assert(t.len() > 1);
            assert(!(t =~= "}"@));
        }
        return None;
    }
    proof {
        let t = chars@.subrange(p7 as int, chars@.len() as int);
        reveal_strlit("}");
        assert(t =~= "}"@);
    }
    Some(ParsedBlobTicket { hash, file_size, filename, file_path })
}

// ---------------------------------------------------------------------------
// The download plan.
// ---------------------------------------------------------------------------
/// Size of one ranged request of a blob download.
pub const DOWNLOAD_CHUNK_SIZE: u64 = 1048576;

/// The inclusive range of the next ranged request: from the bytes already
/// downloaded, up to a full chunk, never past the end of the file.
pub fn next_download_range(downloaded: u64, file_size: u64) -> (r: (u64, u64))
    requires
        downloaded < file_size,
    ensures
        r.0 == downloaded,
        r.1 == (if downloaded + DOWNLOAD_CHUNK_SIZE - 1 < file_size - 1 {
            downloaded + DOWNLOAD_CHUNK_SIZE - 1
        } else {
            file_size - 1
        }),
        r.0 <= r.1 < file_size,
{
    let range_end = if file_size - downloaded > DOWNLOAD_CHUNK_SIZE {
        downloaded + DOWNLOAD_CHUNK_SIZE - 1
    } else {
        file_size - 1
    };
    (downloaded, range_end)
}

/// The progress record for a download that has started.
pub fn progress_started(total_size: u64) -> (r: String)
    ensures
        r@ == "{\"type\":\"started\",\"total_size\":"@ + dec_str(total_size as nat) + "}"@,
{
    let mut out = String::new();
    out.append("{\"type\":\"started\",\"total_size\":");
    push_dec(&mut out, total_size);
    out.append("}");
    proof {
        assert(out@ =~= "{\"type\":\"started\",\"total_size\":"@ + dec_str(total_size as nat)
            + "}"@);
    }
    out
}

/// The progress record for bytes received so far.
pub fn progress_update(downloaded: u64, total: u64) -> (r: String)
    ensures
        r@ == "{\"type\":\"progress\",\"downloaded\":"@ + dec_str(downloaded as nat)
            + ",\"total\":"@ + dec_str(total as nat) + "}"@,
{
    let mut out = String::new();
    out.append("{\"type\":\"progress\",\"downloaded\":");
    push_dec(&mut out, downloaded);
    out.append(",\"total\":");
    push_dec(&mut out, total);
    out.append("}");
    proof {
        assert(out@ =~= "{\"type\":\"progress\",\"downloaded\":"@ + dec_str(downloaded as nat)
            + ",\"total\":"@ + dec_str(total as nat) + "}"@);
    }
    out
}

/// The progress record for a finished download.
pub fn progress_completed(file_path: &String) -> (r: String)
    ensures
        r@ == "{\"type\":\"completed\",\"file_path\":"@ + quoted(file_path@) + "}"@,
{
    let mut out = String::new();
    out.append("{\"type\":\"completed\",\"file_path\":");
    push_quoted(&mut out, file_path.as_str());
    out.append("}");
    proof {
        assert(out@ =~= "{\"type\":\"completed\",\"file_path\":"@ + quoted(file_path@) + "}"@);
    }
    out
}

/// The progress record for a failed download.
pub fn progress_failed(error: &String) -> (r: String)
    ensures
        r@ == "{\"type\":\"failed\",\"error\":"@ + quoted(error@) + "}"@,
{
    let mut out = String::new();
    out.append("{\"type\":\"failed\",\"error\":");
    push_quoted(&mut out, error.as_str());
    out.append("}");
    proof {
        assert(out@ =~= "{\"type\":\"failed\",\"error\":"@ + quoted(error@) + "}"@);
    }
    out
}

} // verus!
