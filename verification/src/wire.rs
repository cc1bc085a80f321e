//! The wire format: the `Content-Length` header line, the blank separator
//! line, and the byte-exact frame layout around a payload.
//!
//! One frame on the wire is
//! `Content-Length: <decimal-digits>\r\n` `\r\n` `<payload bytes>`,
//! where the digits give the payload's byte count (not its character count).
//! This module holds the mathematical model of that layout, the verified
//! header parser, the verified frame builder, and the round-trip laws
//! relating them.

use crate::lsp_io::LspIoErr;
use vstd::prelude::*;

verus! {

use vstd::string::StringExecFns;

/// ASCII whitespace, as the header tokenizer understands it.
pub open spec fn is_ws(b: u8) -> bool {
    b == 32 || b == 9 || b == 10 || b == 11 || b == 12 || b == 13
}

/// First position at or after `i` holding a non-whitespace byte, or the end.
pub open spec fn skip_ws(s: Seq<u8>, i: int) -> int
    decreases s.len() - i,
{
    if 0 <= i < s.len() && is_ws(s[i]) {
        skip_ws(s, i + 1)
    } else {
        i
    }
}

/// First position at or after `i` holding a whitespace byte, or the end.
pub open spec fn skip_token(s: Seq<u8>, i: int) -> int
    decreases s.len() - i,
{
    if 0 <= i < s.len() && !is_ws(s[i]) {
        skip_token(s, i + 1)
    } else {
        i
    }
}

/// The first whitespace-separated token of the line.
pub open spec fn tok1(s: Seq<u8>) -> Seq<u8> {
    s.subrange(skip_ws(s, 0), skip_token(s, skip_ws(s, 0)))
}

/// Where the second whitespace-separated token of the line starts.
pub open spec fn tok2_start(s: Seq<u8>) -> int {
    skip_ws(s, skip_token(s, skip_ws(s, 0)))
}

/// The second whitespace-separated token of the line (empty if none).
pub open spec fn tok2(s: Seq<u8>) -> Seq<u8> {
    s.subrange(tok2_start(s), skip_token(s, tok2_start(s)))
}

/// The byte at position `i` of the header token `Content-Length:`.
pub open spec fn header_tag_byte(i: int) -> u8 {
    if i == 0 {
        67
    } else if i == 1 {
        111
    } else if i == 2 {
        110
    } else if i == 3 {
        116
    } else if i == 4 {
        101
    } else if i == 5 {
        110
    } else if i == 6 {
        116
    } else if i == 7 {
        45
    } else if i == 8 {
        76
    } else if i == 9 {
        101
    } else if i == 10 {
        110
    } else if i == 11 {
        103
    } else if i == 12 {
        116
    } else if i == 13 {
        104
    } else {
        58
    }
}

/// The bytes of the header token `Content-Length:`.
pub open spec fn header_tag() -> Seq<u8> {
    Seq::new(15, |i: int| header_tag_byte(i))
}

/// An ASCII decimal digit.
pub open spec fn is_digit(b: u8) -> bool {
    48 <= b <= 57
}

/// Every byte of `t` is an ASCII decimal digit.
pub open spec fn all_digits(t: Seq<u8>) -> bool {
    forall|i: int| 0 <= i < t.len() ==> is_digit(#[trigger] t[i])
}

/// The number the digit bytes `t` denote, most significant first.
pub open spec fn digits_val(t: Seq<u8>) -> nat
    decreases t.len(),
{
    if t.len() == 0 {
        0
    } else {
        (digits_val(t.drop_last()) * 10 + (t.last() - 48)) as nat
    }
}

/// The line begins (after optional whitespace) with the `Content-Length:` token.
pub open spec fn header_tag_ok(s: Seq<u8>) -> bool {
    tok1(s) == header_tag()
}

/// The header line is well-formed: the token, then a non-empty run of decimal
/// digits denoting a value that fits in `usize`.
pub open spec fn content_length_ok(s: Seq<u8>) -> bool {
    &&& header_tag_ok(s)
    &&& tok2(s).len() > 0
    &&& all_digits(tok2(s))
    &&& digits_val(tok2(s)) <= usize::MAX
}

/// The content length a well-formed header line declares.
pub open spec fn header_value(s: Seq<u8>) -> nat {
    digits_val(tok2(s))
}

/// Position just after the first line feed at or after `i`, or the end.
pub open spec fn first_line_end(s: Seq<u8>, i: int) -> int
    decreases s.len() - i,
{
    if 0 <= i < s.len() {
        if s[i] == 10 {
            i + 1
        } else {
            first_line_end(s, i + 1)
        }
    } else {
        s.len() as int
    }
}

/// The first line of `s`, including its terminating line feed if present.
pub open spec fn take_line(s: Seq<u8>) -> Seq<u8> {
    s.subrange(0, first_line_end(s, 0))
}

/// Everything after the first line of `s`.
pub open spec fn drop_line(s: Seq<u8>) -> Seq<u8> {
    s.subrange(first_line_end(s, 0), s.len() as int)
}

/// The decimal digits of `n`, most significant first.
pub open spec fn dec_digits(n: nat) -> Seq<u8>
    decreases n,
{
    if n < 10 {
        seq![(48 + n) as u8]
    } else {
        dec_digits(n / 10) + seq![(48 + n % 10) as u8]
    }
}

/// The header block that precedes a payload of `n` bytes:
/// `Content-Length: <n>\r\n\r\n`.
pub open spec fn frame_header_bytes(n: nat) -> Seq<u8> {
    header_tag() + seq![32u8] + dec_digits(n) + seq![13u8, 10u8, 13u8, 10u8]
}

/// The complete frame around a payload: header block, then the payload bytes.
pub open spec fn frame_bytes(p: Seq<u8>) -> Seq<u8> {
    frame_header_bytes(p.len()) + p
}

/// `skip_ws` lands exactly at the end of a whitespace run.
proof fn lemma_skip_ws_range(s: Seq<u8>, i: int, j: int)
    requires
        0 <= i <= j <= s.len(),
        forall|k: int| i <= k < j ==> is_ws(#[trigger] s[k]),
        j == s.len() || !is_ws(s[j]),
    ensures
        skip_ws(s, i) == j,
    decreases j - i,
{
    if i < j {
        lemma_skip_ws_range(s, i + 1, j);
    }
}

/// `skip_token` lands exactly at the end of a non-whitespace run.
proof fn lemma_skip_token_range(s: Seq<u8>, i: int, j: int)
    requires
        0 <= i <= j <= s.len(),
        forall|k: int| i <= k < j ==> !is_ws(#[trigger] s[k]),
        j == s.len() || is_ws(s[j]),
    ensures
        skip_token(s, i) == j,
    decreases j - i,
{
    if i < j {
        lemma_skip_token_range(s, i + 1, j);
    }
}

/// `first_line_end` lands just after the first line feed.
proof fn lemma_first_line_end_at(s: Seq<u8>, i: int, j: int)
    requires
        0 <= i <= j < s.len(),
        forall|k: int| i <= k < j ==> #[trigger] s[k] != 10,
        s[j] == 10,
    ensures
        first_line_end(s, i) == j + 1,
    decreases j - i,
{
    if i < j {
        lemma_first_line_end_at(s, i + 1, j);
    }
}

/// No byte of the header token is whitespace or a line feed.
proof fn lemma_header_tag_byte_plain(k: int)
    ensures
        !is_ws(header_tag_byte(k)),
        header_tag_byte(k) != 10,
{
}

/// Round trip of one frame: the frame built for a payload is read back
/// exactly. Its first line is a well-formed header declaring precisely the
/// payload's byte count, the next line is the blank `\r\n` separator, and the
/// bytes after that separator are the payload itself.
pub proof fn lemma_frame_round_trip(p: Seq<u8>)
    requires
        p.len() <= usize::MAX,
    ensures
        content_length_ok(take_line(frame_bytes(p))),
        header_value(take_line(frame_bytes(p))) == p.len(),
        take_line(drop_line(frame_bytes(p))) == seq![13u8, 10u8],
        drop_line(drop_line(frame_bytes(p))) == p,
{
    let w = frame_bytes(p);
    let d = dec_digits(p.len());
    let dl = d.len() as int;
    lemma_dec_digits_are_digits(p.len());
    lemma_dec_digits_val(p.len());
    assert forall|k: int| 0 <= k < 15 implies w[k] == header_tag_byte(k) && !is_ws(#[trigger] w[k])
        && w[k] != 10 by {
        lemma_header_tag_byte_plain(k);
    }
    assert(w[15] == 32);
    assert forall|k: int| 16 <= k < 16 + dl implies is_digit(#[trigger] w[k]) by {
        assert(w[k] == d[k - 16]);
    }
    assert(w[16 + dl] == 13);
    assert(w[16 + dl + 1] == 10);
    assert(w[16 + dl + 2] == 13);
    assert(w[16 + dl + 3] == 10);
    assert(w.len() == 16 + dl + 4 + p.len());
    lemma_first_line_end_at(w, 0, 16 + dl + 1);
    let l1 = take_line(w);
    assert(l1.len() == 16 + dl + 2);
    assert forall|k: int| 0 <= k < l1.len() implies #[trigger] l1[k] == w[k] by {}
    lemma_skip_ws_range(l1, 0, 0);
    lemma_skip_token_range(l1, 0, 15);
    assert(tok1(l1) =~= header_tag());
    lemma_skip_ws_range(l1, 15, 16);
    lemma_skip_token_range(l1, 16, 16 + dl);
    assert(tok2(l1) =~= d);
    assert(content_length_ok(l1));
    assert(header_value(l1) == p.len());
    let rest1 = drop_line(w);
    assert(rest1.len() == 2 + p.len());
    assert(rest1[0] == 13 && rest1[1] == 10);
    lemma_first_line_end_at(rest1, 0, 1);
    assert(take_line(rest1) =~= seq![13u8, 10u8]);
    assert(drop_line(rest1) =~= p);
}

/// Round trip of one message text: frame the UTF-8 encoding of any text and
/// the frame reads back to a header declaring the encoding's byte count and to
/// payload bytes that are valid UTF-8 and decode to the original text.
pub proof fn lemma_message_round_trip(msg: Seq<char>)
    requires
        vstd::utf8::encode_utf8(msg).len() <= usize::MAX,
    ensures
        content_length_ok(take_line(frame_bytes(vstd::utf8::encode_utf8(msg)))),
        header_value(take_line(frame_bytes(vstd::utf8::encode_utf8(msg))))
            == vstd::utf8::encode_utf8(msg).len(),
        vstd::utf8::valid_utf8(drop_line(drop_line(frame_bytes(vstd::utf8::encode_utf8(msg))))),
        vstd::utf8::decode_utf8(drop_line(drop_line(frame_bytes(vstd::utf8::encode_utf8(msg)))))
            == msg,
{
    lemma_frame_round_trip(vstd::utf8::encode_utf8(msg));
    vstd::utf8::encode_utf8_valid_utf8(msg);
    vstd::utf8::encode_utf8_decode_utf8(msg);
}

/// The byte at position `i` of the header token, as executable code.
fn header_tag_byte_at(i: usize) -> (b: u8)
    requires
        i < 15,
    ensures
        b == header_tag_byte(i as int),
{
    if i == 0 {
        67
    } else if i == 1 {
        111
    } else if i == 2 {
        110
    } else if i == 3 {
        116
    } else if i == 4 {
        101
    } else if i == 5 {
        110
    } else if i == 6 {
        116
    } else if i == 7 {
        45
    } else if i == 8 {
        76
    } else if i == 9 {
        101
    } else if i == 10 {
        110
    } else if i == 11 {
        103
    } else if i == 12 {
        116
    } else if i == 13 {
        104
    } else {
        58
    }
}

/// Scan past whitespace, starting at `from`.
fn scan_ws(s: &Vec<u8>, from: usize) -> (r: usize)
    requires
        from <= s@.len(),
    ensures
        from <= r <= s@.len(),
        r as int == skip_ws(s@, from as int),
    decreases s@.len() - from,
{
    if from < s.len() {
        let b = s[from];
        if b == 32 || b == 9 || b == 10 || b == 11 || b == 12 || b == 13 {
            return scan_ws(s, from + 1);
        }
    }
    from
}

/// Scan past non-whitespace, starting at `from`.
fn scan_token(s: &Vec<u8>, from: usize) -> (r: usize)
    requires
        from <= s@.len(),
    ensures
        from <= r <= s@.len(),
        r as int == skip_token(s@, from as int),
    decreases s@.len() - from,
{
    if from < s.len() {
        let b = s[from];
        if !(b == 32 || b == 9 || b == 10 || b == 11 || b == 12 || b == 13) {
            return scan_token(s, from + 1);
        }
    }
    from
}

/// The value of a digit run never shrinks as the run grows to the right.
proof fn lemma_digits_val_mono(t: Seq<u8>, k: int)
    requires
        0 <= k <= t.len(),
        all_digits(t),
    ensures
        digits_val(t.subrange(0, k)) <= digits_val(t),
    decreases t.len() - k,
{
    if k == t.len() {
        assert(t.subrange(0, k) =~= t);
    } else {
        assert(t.subrange(0, k + 1).drop_last() =~= t.subrange(0, k));
        assert(t.subrange(0, k + 1).last() == t[k]);
        lemma_digits_val_mono(t, k + 1);
    }
}

/// Parse the digit run `s[from..to]` as an unsigned integer, refusing any
/// non-digit byte and any value that does not fit in `usize`.
fn parse_decimal(s: &Vec<u8>, from: usize, to: usize) -> (r: Option<usize>)
    requires
        from <= to <= s@.len(),
    ensures
        r is Some <==> all_digits(s@.subrange(from as int, to as int)) && digits_val(
            s@.subrange(from as int, to as int),
        ) <= usize::MAX,
        r matches Some(n) ==> n == digits_val(s@.subrange(from as int, to as int)),
{
    let ghost whole = s@.subrange(from as int, to as int);
    let mut acc: usize = 0;
    let mut i: usize = from;
    while i < to
        invariant
            from <= i <= to <= s@.len(),
            whole == s@.subrange(from as int, to as int),
            all_digits(s@.subrange(from as int, i as int)),
            acc == digits_val(s@.subrange(from as int, i as int)),
        decreases to - i,
    {
        let b = s[i];
        proof {
            assert(whole[i - from] == b);
        }
        if b < 48 || b > 57 {
            return None;
        }
        let d: usize = (b - 48) as usize;
        let limit: usize = (usize::MAX - d) / 10;
        proof {
            assert(s@.subrange(from as int, i as int + 1).drop_last() =~= s@.subrange(
                from as int,
                i as int,
            ));
            assert(s@.subrange(from as int, i as int + 1).last() == b);
        }
        if acc > limit {
            proof {
                let p: int = usize::MAX - d;
                assert(10 * (p / 10) <= p);
                assert(acc * 10 >= (limit + 1) * 10) by (nonlinear_arith)
                    requires
                        acc >= limit + 1,
                ;
                assert(digits_val(s@.subrange(from as int, i as int + 1)) > usize::MAX);
                if all_digits(whole) {
                    lemma_digits_val_mono(whole, i as int + 1 - from);
                    assert(whole.subrange(0, i as int + 1 - from) =~= s@.subrange(
                        from as int,
                        i as int + 1,
                    ));
                }
            }
            return None;
        }
        proof {
            let p: int = usize::MAX - d;
            assert(10 * (p / 10) + p % 10 == p);
            assert(acc * 10 <= limit * 10) by (nonlinear_arith)
                requires
                    acc <= limit,
            ;
        }
        acc = acc * 10 + d;
        i = i + 1;
    }
    proof {
        assert(s@.subrange(from as int, i as int) =~= whole);
    }
    Some(acc)
}

/// The decimal digits of a number are all digit bytes, and there is at least
/// one of them.
pub proof fn lemma_dec_digits_are_digits(n: nat)
    ensures
        dec_digits(n).len() > 0,
        all_digits(dec_digits(n)),
    decreases n,
{
    if n < 10 {
        assert(is_digit(dec_digits(n)[0]));
    } else {
        lemma_dec_digits_are_digits(n / 10);
        assert(forall|i: int|
            0 <= i < dec_digits(n).len() ==> is_digit(#[trigger] dec_digits(n)[i]));
    }
}

/// The decimal digits of a number denote that number.
pub proof fn lemma_dec_digits_val(n: nat)
    ensures
        digits_val(dec_digits(n)) == n,
    decreases n,
{
    if n < 10 {
        assert(dec_digits(n).drop_last() =~= Seq::<u8>::empty());
        assert(digits_val(Seq::<u8>::empty()) == 0);
    } else {
        let t = dec_digits(n);
        assert(t.drop_last() =~= dec_digits(n / 10));
        assert(t.last() == (48 + n % 10) as u8);
        lemma_dec_digits_val(n / 10);
        assert(n == (n / 10) * 10 + n % 10) by (nonlinear_arith);
    }
}

/// Write the decimal digits of `n`, most significant first.
fn digits_of(n: usize) -> (r: Vec<u8>)
    ensures
        r@ == dec_digits(n as nat),
{
    let mut rev: Vec<u8> = Vec::new();
    let mut m: usize = n;
    while m >= 10
        invariant
            dec_digits(n as nat) =~= dec_digits(m as nat) + rev@.reverse(),
        decreases m,
    {
        let ghost m0 = m as nat;
        let ghost rev0 = rev@;
        let d: u8 = (m % 10) as u8 + 48;
        rev.push(d);
        m = m / 10;
        proof {
            assert(dec_digits(m0) == dec_digits(m0 / 10) + seq![(48 + m0 % 10) as u8]);
            assert(rev@.reverse() =~= seq![d] + rev0.reverse());
            assert(dec_digits(m as nat) + rev@.reverse() =~= (dec_digits(m as nat) + seq![d])
                + rev0.reverse());
            assert(dec_digits(n as nat) =~= dec_digits(m as nat) + rev@.reverse());
        }
    }
    let mut out: Vec<u8> = Vec::new();
    out.push((m as u8) + 48);
    proof {
        assert(dec_digits(m as nat) =~= seq![(48 + m as nat) as u8]);
    }
    let mut j: usize = rev.len();
    while j > 0
        invariant
            j <= rev@.len(),
            out@ =~= dec_digits(m as nat) + rev@.subrange(j as int, rev@.len() as int).reverse(),
            dec_digits(n as nat) =~= dec_digits(m as nat) + rev@.reverse(),
        decreases j,
    {
        let ghost out0 = out@;
        j = j - 1;
        out.push(rev[j]);
        proof {
            assert(rev@.subrange(j as int, rev@.len() as int).reverse() =~= rev@.subrange(
                j as int + 1,
                rev@.len() as int,
            ).reverse().push(rev@[j as int]));
            assert(out@ =~= out0.push(rev@[j as int]));
        }
    }
    proof {
        assert(rev@.subrange(0, rev@.len() as int) =~= rev@);
        assert(out@ =~= dec_digits(n as nat));
    }
    out
}

/// Build the complete frame for a payload: the header block declaring the
/// payload's byte count, then the payload bytes themselves.
pub fn frame_payload(payload: &[u8]) -> (r: Vec<u8>)
    ensures
        r@ == frame_bytes(payload@),
{
    let mut out: Vec<u8> = Vec::new();
    let mut k: usize = 0;
    while k < 15
        invariant
            k <= 15,
            out@.len() == k,
            forall|j: int| 0 <= j < k ==> out@[j] == header_tag_byte(j),
        decreases 15 - k,
    {
        out.push(header_tag_byte_at(k));
        k = k + 1;
    }
    proof {
        assert(out@ =~= header_tag());
    }
    out.push(32);
    let ghost with_tag = out@;
    let mut digits = digits_of(payload.len());
    out.append(&mut digits);
    out.push(13);
    out.push(10);
    out.push(13);
    out.push(10);
    let ghost with_header = out@;
    proof {
        assert(with_header =~= frame_header_bytes(payload@.len()));
    }
    let mut body = vstd::slice::slice_to_vec(payload);
    out.append(&mut body);
    proof {
        assert(out@ =~= frame_bytes(payload@));
    }
    out
}

/// Parse one header line.
///
/// The line is accepted exactly when its first whitespace-separated token is
/// `Content-Length:` and its second is a non-empty run of decimal digits whose
/// value fits in `usize`; the result is then that value, the payload's byte
/// count. Each rejection names what was wrong: no token match, no value after
/// the token, or a value that is not a valid unsigned integer.
pub fn parse_header(line: &Vec<u8>) -> (r: Result<usize, LspIoErr>)
    ensures
        r is Ok <==> content_length_ok(line@),
        r matches Ok(n) ==> n == header_value(line@),
        r matches Err(e) && e matches LspIoErr::HeaderMissing <==> !header_tag_ok(line@),
        r matches Err(e) && e matches LspIoErr::ContentLengthMissing <==> header_tag_ok(line@)
            && tok2(line@).len() == 0,
        r matches Err(e) && e matches LspIoErr::ContentLengthMalformed(_) <==> header_tag_ok(
            line@,
        ) && tok2(line@).len() > 0 && !content_length_ok(line@),
{
    let ghost sv = line@;
    let t1s = scan_ws(line, 0);
    let t1e = scan_token(line, t1s);
    proof {
        assert(tok1(sv) == sv.subrange(t1s as int, t1e as int));
    }
    if t1e - t1s != 15 {
        proof {
            assert(tok1(sv).len() != header_tag().len());
        }
        return Err(LspIoErr::HeaderMissing);
    }
    let mut k: usize = 0;
    while k < 15
        invariant
            t1s + 15 == t1e <= sv.len(),
            k <= 15,
            sv == line@,
            t1s as int == skip_ws(sv, 0),
            t1e as int == skip_token(sv, t1s as int),
            forall|j: int| 0 <= j < k ==> sv[t1s + j] == header_tag_byte(j),
        decreases 15 - k,
    {
        let b = line[t1s + k];
        if b != header_tag_byte_at(k) {
            proof {
                assert(tok1(sv)[k as int] == sv[t1s + k]);
                assert(header_tag()[k as int] == header_tag_byte(k as int));
            }
            return Err(LspIoErr::HeaderMissing);
        }
        k = k + 1;
    }
    proof {
        assert(tok1(sv) =~= header_tag());
    }
    let t2s = scan_ws(line, t1e);
    let t2e = scan_token(line, t2s);
    proof {
        assert(tok2(sv) == sv.subrange(t2s as int, t2e as int));
    }
    if t2s == t2e {
        return Err(LspIoErr::ContentLengthMissing);
    }
    match parse_decimal(line, t2s, t2e) {
        Some(n) => Ok(n),
        None => Err(
            LspIoErr::ContentLengthMalformed(
                String::from_str("value is not an unsigned integer that fits in usize"),
            ),
        ),
    }
}

} // verus!
