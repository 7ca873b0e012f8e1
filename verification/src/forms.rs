//! Decoding of `application/x-www-form-urlencoded` request bodies for
//! the subscription endpoint.
//!
//! The body is split on `&` into pairs, each pair on its first `=` into
//! key and value, and both sides are percent-decoded (`+` reads as a
//! space, `%XX` as the byte `XX`; a stray `%` stays literal).  A
//! submission is well-formed exactly when the fields `name` and `email`
//! are each present exactly once; other keys are ignored.

use crate::text::lossy_utf8;
use vstd::prelude::*;

verus! {

/// Whether `b` is an ASCII hexadecimal digit.
pub open spec fn is_hex_digit(b: u8) -> bool {
    (48 <= b <= 57) || (65 <= b <= 70) || (97 <= b <= 102)
}

/// The value of an ASCII hexadecimal digit.
pub open spec fn hex_val(b: u8) -> u8 {
    if 48 <= b <= 57 {
        (b - 48) as u8
    } else if 65 <= b <= 70 {
        (b - 55) as u8
    } else {
        (b - 87) as u8
    }
}

/// The byte a two-digit percent escape stands for.
pub open spec fn pct_byte(h: u8, l: u8) -> u8 {
    ((hex_val(h) as int) * 16 + (hex_val(l) as int)) as u8
}

/// Percent-decodes a byte sequence: `+` becomes a space, a well-formed
/// `%XX` escape becomes the byte `XX`, and anything else (including a
/// malformed escape) stays as it is.
pub open spec fn pct_decode(s: Seq<u8>) -> Seq<u8>
    decreases s.len(),
{
    if s.len() == 0 {
        seq![]
    } else if s[0] == 43 {
        seq![32u8] + pct_decode(s.drop_first())
    } else if s[0] == 37 && s.len() >= 3 && is_hex_digit(s[1]) && is_hex_digit(s[2]) {
        seq![pct_byte(s[1], s[2])] + pct_decode(s.skip(3))
    } else {
        seq![s[0]] + pct_decode(s.drop_first())
    }
}

/// The index of the first occurrence of `b` in `s`, or `s.len()`.
pub open spec fn idx_of(s: Seq<u8>, b: u8) -> nat
    decreases s.len(),
{
    if s.len() == 0 {
        0
    } else if s[0] == b {
        0
    } else {
        1 + idx_of(s.drop_first(), b)
    }
}

/// The segments of `s` between occurrences of `sep`.
pub open spec fn split_on(s: Seq<u8>, sep: u8) -> Seq<Seq<u8>>
    decreases s.len(),
{
    let i = idx_of(s, sep);
    if i >= s.len() {
        seq![s]
    } else {
        seq![s.take(i as int)] + split_on(s.skip(i as int + 1), sep)
    }
}

/// The raw key of a pair: everything before its first `=`, or the whole
/// pair when it has none.
pub open spec fn pair_key(p: Seq<u8>) -> Seq<u8> {
    let i = idx_of(p, 61);
    if i >= p.len() {
        p
    } else {
        p.take(i as int)
    }
}

/// The raw value of a pair: everything after its first `=`, or empty
/// when it has none.
pub open spec fn pair_val(p: Seq<u8>) -> Seq<u8> {
    let i = idx_of(p, 61);
    if i >= p.len() {
        seq![]
    } else {
        p.skip(i as int + 1)
    }
}

/// The decoded bytes of the two required fields of a submission.
pub struct FormV {
    pub name: Seq<u8>,
    pub email: Seq<u8>,
}

/// The bytes of the key `name`.
pub open spec fn name_bytes() -> Seq<u8> {
    seq![110u8, 97u8, 109u8, 101u8]
}

/// The bytes of the key `email`.
pub open spec fn email_bytes() -> Seq<u8> {
    seq![101u8, 109u8, 97u8, 105u8, 108u8]
}

/// Walks the pairs in order, remembering the first `name` and `email`
/// values.  An empty pair is skipped; a repeated field makes the whole
/// submission ill-formed; the submission is well-formed exactly when
/// both fields turn up.
pub open spec fn scan_pairs(
    pairs: Seq<Seq<u8>>,
    name: Option<Seq<u8>>,
    email: Option<Seq<u8>>,
) -> Option<FormV>
    decreases pairs.len(),
{
    if pairs.len() == 0 {
        match (name, email) {
            (Some(n), Some(e)) => Some(FormV { name: n, email: e }),
            _ => None,
        }
    } else {
        let p = pairs[0];
        if p.len() == 0 {
            scan_pairs(pairs.drop_first(), name, email)
        } else {
            let k = pct_decode(pair_key(p));
            let v = pct_decode(pair_val(p));
            if k == name_bytes() {
                if name is Some {
                    None
                } else {
                    scan_pairs(pairs.drop_first(), Some(v), email)
                }
            } else if k == email_bytes() {
                if email is Some {
                    None
                } else {
                    scan_pairs(pairs.drop_first(), name, Some(v))
                }
            } else {
                scan_pairs(pairs.drop_first(), name, email)
            }
        }
    }
}

/// What parsing a request body yields: the decoded `name` and `email`
/// bytes when the submission is well-formed, nothing otherwise.
pub open spec fn spec_parse_form(body: Seq<u8>) -> Option<FormV> {
    scan_pairs(split_on(body, 38), None, None)
}

/// A well-formed submission: the two required fields, decoded.
pub struct FormData {
    pub name: String,
    pub email: String,
}

/// `idx_of` is pinned down by a scan that found the first occurrence.
proof fn lemma_idx_of(s: Seq<u8>, b: u8, k: int)
    requires
        0 <= k <= s.len(),
        forall|m: int| 0 <= m < k ==> s[m] != b,
        k == s.len() || s[k] == b,
    ensures
        idx_of(s, b) == k,
    decreases s.len(),
{
    if s.len() == 0 {
    } else if k == 0 {
    } else {
        assert(s[0] != b);
        lemma_idx_of(s.drop_first(), b, k - 1);
    }
}

/// The value of a decoded hexadecimal digit.
fn hex_val_exec(x: u8) -> (r: u8)
    requires
        is_hex_digit(x),
    ensures
        r == hex_val(x),
        r <= 15,
{
    if 48 <= x && x <= 57 {
        x - 48
    } else if 65 <= x && x <= 70 {
        x - 55
    } else {
        x - 87
    }
}

/// Whether `x` is an ASCII hexadecimal digit.
fn is_hex_exec(x: u8) -> (r: bool)
    ensures
        r == is_hex_digit(x),
{
    (48 <= x && x <= 57) || (65 <= x && x <= 70) || (97 <= x && x <= 102)
}

/// Percent-decodes `body[from..to]`.
fn pct_decode_range(body: &[u8], from: usize, to: usize) -> (r: Vec<u8>)
    requires
        from <= to <= body@.len(),
    ensures
        r@ == pct_decode(body@.subrange(from as int, to as int)),
{
    let ghost seg = body@.subrange(from as int, to as int);
    let mut out: Vec<u8> = Vec::new();
    let mut c: usize = from;
    proof {
        assert(out@ + pct_decode(body@.subrange(from as int, to as int)) =~= pct_decode(seg));
    }
    while c < to
        invariant
            from <= c <= to,
            to <= body@.len(),
            seg == body@.subrange(from as int, to as int),
            pct_decode(seg) == out@ + pct_decode(body@.subrange(c as int, to as int)),
        decreases to - c,
    {
        let ghost rem = body@.subrange(c as int, to as int);
        let x = body[c];
        proof {
            assert(rem[0] == x);
        }
        if x == 43 {
            out.push(32);
            proof {
                assert(rem.drop_first() =~= body@.subrange(c + 1, to as int));
                assert(pct_decode(rem) == seq![32u8] + pct_decode(rem.drop_first()));
                assert(out@ + pct_decode(body@.subrange(c + 1, to as int)) =~= pct_decode(seg));
            }
            c += 1;
        } else {
            let escape = x == 37 && to - c >= 3 && is_hex_exec(body[c + 1]) && is_hex_exec(
                body[c + 2],
            );
            if escape {
                proof {
                    assert(rem.len() >= 3);
                    assert(rem[1] == body@[c + 1]);
                    assert(rem[2] == body@[c + 2]);
                }
                let h = hex_val_exec(body[c + 1]);
                let l = hex_val_exec(body[c + 2]);
                out.push(h * 16 + l);
                proof {
                    assert(h * 16 + l == pct_byte(rem[1], rem[2]));
                    assert(rem.skip(3) =~= body@.subrange(c + 3, to as int));
                    assert(pct_decode(rem) == seq![pct_byte(rem[1], rem[2])] + pct_decode(
                        rem.skip(3),
                    ));
                    assert(out@ + pct_decode(body@.subrange(c + 3, to as int)) =~= pct_decode(
                        seg,
                    ));
                }
                c += 3;
            } else {
                out.push(x);
                proof {
                    assert(rem.drop_first() =~= body@.subrange(c + 1, to as int));
                    assert(pct_decode(rem) == seq![rem[0]] + pct_decode(rem.drop_first()));
                    assert(out@ + pct_decode(body@.subrange(c + 1, to as int)) =~= pct_decode(
                        seg,
                    ));
                }
                c += 1;
            }
        }
    }
    proof {
        assert(body@.subrange(c as int, to as int) =~= Seq::<u8>::empty());
        assert(out@ + pct_decode(body@.subrange(c as int, to as int)) =~= out@);
    }
    out
}

/// The position of the first `sep` in `body[from..to]`, or `to`.
fn scan_to(body: &[u8], from: usize, to: usize, sep: u8) -> (r: usize)
    requires
        from <= to <= body@.len(),
    ensures
        from <= r <= to,
        forall|m: int| from <= m < r ==> body@[m] != sep,
        r == to || body@[r as int] == sep,
{
    let mut j: usize = from;
    while j < to
        invariant
            from <= j <= to,
            to <= body@.len(),
            forall|m: int| from <= m < j ==> body@[m] != sep,
        decreases to - j,
    {
        if body[j] == sep {
            return j;
        }
        j += 1;
    }
    j
}

/// Whether `k` holds exactly the bytes of the key `name`.
fn is_name_key(k: &Vec<u8>) -> (r: bool)
    ensures
        r == (k@ == name_bytes()),
{
    let r = k.len() == 4 && k[0] == 110 && k[1] == 97 && k[2] == 109 && k[3] == 101;
    proof {
        if r {
            assert(k@ =~= name_bytes());
        } else if k@ == name_bytes() {
            assert(k@.len() == 4);
            assert(k@[0] == 110 && k@[1] == 97 && k@[2] == 109 && k@[3] == 101);
        }
    }
    r
}

/// Whether `k` holds exactly the bytes of the key `email`.
fn is_email_key(k: &Vec<u8>) -> (r: bool)
    ensures
        r == (k@ == email_bytes()),
{
    let r = k.len() == 5 && k[0] == 101 && k[1] == 109 && k[2] == 97 && k[3] == 105 && k[4]
        == 108;
    proof {
        if r {
            assert(k@ =~= email_bytes());
        } else if k@ == email_bytes() {
            assert(k@.len() == 5);
            assert(k@[0] == 101 && k@[1] == 109 && k@[2] == 97 && k@[3] == 105 && k@[4] == 108);
        }
    }
    r
}

/// The view of an optional byte buffer.
pub open spec fn opt_bytes_view(o: Option<Vec<u8>>) -> Option<Seq<u8>> {
    match o {
        None => None,
        Some(v) => Some(v@),
    }
}

/// Parses a request body as a subscription submission.  It succeeds
/// exactly when the body is well-formed per [`spec_parse_form`]; the
/// returned fields are the decoded bytes read as (lossy) UTF-8.
pub fn parse_form(body: &[u8]) -> (r: Option<FormData>)
    ensures
        match spec_parse_form(body@) {
            None => r is None,
            Some(f) => r matches Some(fd) && fd.name@ == lossy_utf8(f.name) && fd.email@
                == lossy_utf8(f.email),
        },
{
    let n = body.len();
    let mut name_val: Option<Vec<u8>> = None;
    let mut email_val: Option<Vec<u8>> = None;
    let mut pos: usize = 0;
    let mut done: bool = false;
    proof {
        assert(body@.skip(0) =~= body@);
    }
    while !done
        invariant
            n == body@.len(),
            0 <= pos <= n,
            !done ==> spec_parse_form(body@) == scan_pairs(
                split_on(body@.skip(pos as int), 38),
                opt_bytes_view(name_val),
                opt_bytes_view(email_val),
            ),
            done ==> spec_parse_form(body@) == scan_pairs(
                Seq::<Seq<u8>>::empty(),
                opt_bytes_view(name_val),
                opt_bytes_view(email_val),
            ),
        decreases n - pos + (if done {
            0int
        } else {
            1int
        }),
    {
        let ghost suffix = body@.skip(pos as int);
        let ghost pairs = split_on(suffix, 38);
        let j = scan_to(body, pos, n, 38);
        proof {
            assert forall|m: int| 0 <= m < j - pos implies suffix[m] != 38 by {
                assert(suffix[m] == body@[pos + m]);
            }
            if j < n {
                assert(suffix[j - pos] == body@[j as int]);
            }
            lemma_idx_of(suffix, 38, j - pos);
        }
        let ghost seg = suffix.take(j - pos);
        proof {
            assert(seg =~= body@.subrange(pos as int, j as int));
            if j == n {
                assert(seg =~= suffix);
                assert(pairs == seq![suffix]);
                assert(pairs[0] == seg);
                assert(pairs.drop_first() =~= Seq::<Seq<u8>>::empty());
            } else {
                assert(pairs == seq![seg] + split_on(suffix.skip(j - pos + 1), 38));
                assert(pairs[0] == seg);
                assert(pairs.drop_first() =~= split_on(suffix.skip(j - pos + 1), 38));
                assert(suffix.skip(j - pos + 1) =~= body@.skip(j + 1));
            }
        }
        if j > pos {
            // a non-empty pair: split it at its first `=` and decode
            let k = scan_to(body, pos, j, 61);
            proof {
                assert forall|m: int| 0 <= m < k - pos implies seg[m] != 61 by {
                    assert(seg[m] == body@[pos + m]);
                }
                if k < j {
                    assert(seg[k - pos] == body@[k as int]);
                }
                lemma_idx_of(seg, 61, k - pos);
            }
            let key = pct_decode_range(body, pos, k);
            proof {
                assert(body@.subrange(pos as int, k as int) =~= seg.take(k - pos));
                if k == j {
                    assert(seg.take(k - pos) =~= seg);
                    assert(pair_key(seg) == seg);
                } else {
                    assert(pair_key(seg) == seg.take(k - pos));
                }
                assert(key@ == pct_decode(pair_key(seg)));
            }
            let value: Vec<u8> = if k < j {
                let v = pct_decode_range(body, k + 1, j);
                proof {
                    assert(body@.subrange(k + 1, j as int) =~= seg.skip(k - pos + 1));
                    assert(pair_val(seg) == seg.skip(k - pos + 1));
                }
                v
            } else {
                let v: Vec<u8> = Vec::new();
                proof {
                    assert(pair_val(seg) == Seq::<u8>::empty());
                    assert(pct_decode(pair_val(seg)) =~= v@);
                }
                v
            };
            proof {
                assert(value@ == pct_decode(pair_val(seg)));
            }
            if is_name_key(&key) {
                if name_val.is_some() {
                    return None;
                }
                name_val = Some(value);
            } else if is_email_key(&key) {
                if email_val.is_some() {
                    return None;
                }
                email_val = Some(value);
            }
        }
        if j == n {
            done = true;
        } else {
            pos = j + 1;
        }
    }
    let name_buf = match name_val {
        Some(v) => v,
        None => {
            return None;
        },
    };
    let email_buf = match email_val {
        Some(v) => v,
        None => {
            return None;
        },
    };
    let name = crate::text::string_from_bytes_lossy(&name_buf);
    let email = crate::text::string_from_bytes_lossy(&email_buf);
    Some(FormData { name, email })
}

} // verus!
