//! The two framing components: `JsonReceiver` turns bytes arriving on a
//! buffered input stream into one JSON value per call, and `JsonSender`
//! serializes a JSON text with a matching `Content-Length` header.

use crate::wire;
use vstd::prelude::*;

verus! {

use vstd::string::StrSliceExecFns;
use vstd::string::StringExecFns;
use vstd::string::StringSliceAdditionalSpecFns;

/// A failure while receiving or sending one framed message.
#[derive(Debug, PartialEq, Eq)]
pub enum LspIoErr {
    /// The underlying stream failed while reading.
    IoRead(String),
    /// The underlying stream failed while writing.
    IoWrite(String),
    /// The first line did not start with the `Content-Length:` token.
    HeaderMissing,
    /// The `Content-Length:` token was present but no value followed.
    ContentLengthMissing,
    /// A value followed the token but was not a valid unsigned integer.
    ContentLengthMalformed(String),
    /// The payload bytes are not valid UTF-8.
    EncodingError(String),
    /// The payload text is not syntactically valid JSON.
    PayloadParseError(String),
}

#[verifier::external_type_specification]
#[verifier::external_body]
#[verifier::reject_recursive_types(R)]
pub struct ExBufReader<R: ?Sized>(std::io::BufReader<R>);

#[verifier::external_type_specification]
#[verifier::external_body]
pub struct ExValue(serde_json::Value);

/// Owns the read half of the stream and yields one decoded message per call.
#[verifier::reject_recursive_types(T)]
pub struct JsonReceiver<T> {
    pub reader: std::io::BufReader<T>,
}

/// Owns the write half of the stream and emits framed messages into it.
/// Nothing here flushes the writer: the caller decides when the peer should
/// observe the bytes, so a buffered handle (such as `std::io::BufWriter`)
/// batches writes until then.
#[verifier::reject_recursive_types(T)]
pub struct JsonSender<T> {
    pub writer: T,
}

/// Whether a text is a syntactically valid JSON document; it depends on the
/// characters alone.
pub uninterp spec fn json_ok(s: Seq<char>) -> bool;

/// Relies on `std::io::BufRead::read_until`: reads bytes up to and including
/// the first line feed, or up to end-of-stream if none arrives, so a line feed
/// can only be the last byte returned.
#[verifier::external_body]
fn read_line_bytes<T: std::io::Read>(r: &mut std::io::BufReader<T>) -> (res: Result<
    Vec<u8>,
    String,
>)
    ensures
        res matches Ok(line) ==> forall|i: int| 0 <= i < line@.len() - 1 ==> line@[i] != 10u8,
{
    let mut buf: Vec<u8> = Vec::new();
    match std::io::BufRead::read_until(r, b'\n', &mut buf) {
        Ok(_) => Ok(buf),
        Err(e) => Err(e.to_string()),
    }
}

/// Relies on `std::io::Read::read_exact`: on success the buffer was filled
/// completely, so exactly `n` bytes were read; reaching end-of-stream first is
/// an error.
#[verifier::external_body]
fn read_exact_bytes<T: std::io::Read>(r: &mut std::io::BufReader<T>, n: usize) -> (res: Result<
    Vec<u8>,
    String,
>)
    ensures
        res matches Ok(buf) ==> buf@.len() == n,
{
    let mut buf: Vec<u8> = vec![0u8; n];
    match std::io::Read::read_exact(r, &mut buf) {
        Ok(()) => Ok(buf),
        Err(e) => Err(e.to_string()),
    }
}

/// Relies on `std::io::Write::write_all`: writes the entire buffer into the
/// sink, or reports the first underlying error.
#[verifier::external_body]
fn write_all_bytes<T: std::io::Write>(w: &mut T, bytes: &[u8]) -> (res: Result<(), String>) {
    match w.write_all(bytes) {
        Ok(()) => Ok(()),
        Err(e) => Err(e.to_string()),
    }
}

/// Relies on `str::from_utf8`: succeeds exactly when the bytes are valid
/// UTF-8, and then returns the text encoded by those same bytes.
#[verifier::external_body]
fn bytes_to_str<'a>(b: &'a [u8]) -> (res: Result<&'a str, String>)
    ensures
        res is Ok <==> vstd::utf8::valid_utf8(b@),
        res matches Ok(s) ==> s.spec_bytes() == b@,
{
    match std::str::from_utf8(b) {
        Ok(s) => Ok(s),
        Err(e) => Err(e.to_string()),
    }
}

/// Relies on `serde_json::from_str::<serde_json::Value>`: whether a text
/// parses as a JSON document depends on the characters alone.
#[verifier::external_body]
fn parse_json(s: &str) -> (res: Result<serde_json::Value, String>)
    ensures
        res is Ok <==> json_ok(s@),
{
    match serde_json::from_str(s) {
        Ok(v) => Ok(v),
        Err(e) => Err(e.to_string()),
    }
}

/// Decode one received payload: validate the bytes as UTF-8 text, then parse
/// that text as a JSON document. Succeeds exactly when both steps do; a
/// non-text payload is an encoding error, never a corrupted parse.
pub fn decode_payload(bytes: &Vec<u8>) -> (r: Result<serde_json::Value, LspIoErr>)
    ensures
        r is Ok <==> vstd::utf8::valid_utf8(bytes@) && json_ok(vstd::utf8::decode_utf8(bytes@)),
        r matches Err(e) ==> (e matches LspIoErr::EncodingError(_) <==> !vstd::utf8::valid_utf8(
            bytes@,
        )),
        r matches Err(e) ==> (e matches LspIoErr::PayloadParseError(_)
            <==> vstd::utf8::valid_utf8(bytes@) && !json_ok(vstd::utf8::decode_utf8(bytes@))),
{
    let text = match bytes_to_str(bytes.as_slice()) {
        Ok(s) => s,
        Err(e) => {
            return Err(LspIoErr::EncodingError(e));
        },
    };
    proof {
        vstd::utf8::encode_utf8_decode_utf8(text@);
        assert(vstd::utf8::decode_utf8(bytes@) == text@);
    }
    match parse_json(text) {
        Ok(v) => Ok(v),
        Err(e) => Err(LspIoErr::PayloadParseError(e)),
    }
}

impl<T: std::io::Read> JsonReceiver<T> {
    /// Block until one full message has arrived on the owned stream and
    /// return its parsed JSON value.
    ///
    /// One call consumes one frame: the `Content-Length` header line, the
    /// separator line (read and discarded without validation), and exactly
    /// the declared number of payload bytes. Any failure aborts the call with
    /// its specific error and leaves the stream wherever the failing read
    /// stopped; no resynchronization is attempted.
    pub fn get_next_message(&mut self) -> (r: Result<serde_json::Value, LspIoErr>)
        ensures
            r matches Err(e) ==> !(e matches LspIoErr::IoWrite(_)),
    {
        let line = match read_line_bytes(&mut self.reader) {
            Ok(l) => l,
            Err(e) => {
                return Err(LspIoErr::IoRead(e));
            },
        };
        let expected_msg_size = match wire::parse_header(&line) {
            Ok(n) => n,
            Err(e) => {
                return Err(e);
            },
        };
        match read_line_bytes(&mut self.reader) {
            Ok(_) => {},
            Err(e) => {
                return Err(LspIoErr::IoRead(e));
            },
        };
        let recv_buff = match read_exact_bytes(&mut self.reader, expected_msg_size) {
            Ok(b) => b,
            Err(e) => {
                return Err(LspIoErr::IoRead(e));
            },
        };
        decode_payload(&recv_buff)
    }
}

/// The hexadecimal digit character for a value below sixteen.
pub open spec fn hex_digit(n: int) -> char {
    if n == 0 {
        '0'
    } else if n == 1 {
        '1'
    } else if n == 2 {
        '2'
    } else if n == 3 {
        '3'
    } else if n == 4 {
        '4'
    } else if n == 5 {
        '5'
    } else if n == 6 {
        '6'
    } else if n == 7 {
        '7'
    } else if n == 8 {
        '8'
    } else if n == 9 {
        '9'
    } else if n == 10 {
        'a'
    } else if n == 11 {
        'b'
    } else if n == 12 {
        'c'
    } else if n == 13 {
        'd'
    } else if n == 14 {
        'e'
    } else {
        'f'
    }
}

/// How one character stands inside a JSON string literal: the quote, the
/// backslash and every control character are escaped, any other character
/// stands verbatim.
pub open spec fn escape_char(c: char) -> Seq<char> {
    if c == '"' {
        seq!['\\', '"']
    } else if c == '\\' {
        seq!['\\', '\\']
    } else if c == '\u{8}' {
        seq!['\\', 'b']
    } else if c == '\t' {
        seq!['\\', 't']
    } else if c == '\n' {
        seq!['\\', 'n']
    } else if c == '\u{c}' {
        seq!['\\', 'f']
    } else if c == '\r' {
        seq!['\\', 'r']
    } else if (c as u32) < 32 {
        seq!['\\', 'u', '0', '0', hex_digit((c as u32) as int / 16), hex_digit((c as u32) as int % 16)]
    } else {
        seq![c]
    }
}

/// A text as it stands inside a JSON string literal: each character escaped
/// in order.
pub open spec fn json_escape(s: Seq<char>) -> Seq<char>
    decreases s.len(),
{
    if s.len() == 0 {
        Seq::<char>::empty()
    } else {
        json_escape(s.drop_last()) + escape_char(s.last())
    }
}

/// Relies on `String::push`: appends exactly the one given character.
#[verifier::external_body]
fn push_char(s: &mut String, c: char)
    ensures
        final(s)@ == old(s)@ + seq![c],
{
    s.push(c);
}

/// The hexadecimal digit character for a value below sixteen.
fn hex_char_of(n: u32) -> (c: char)
    requires
        n < 16,
    ensures
        c == hex_digit(n as int),
{
    if n == 0 {
        '0'
    } else if n == 1 {
        '1'
    } else if n == 2 {
        '2'
    } else if n == 3 {
        '3'
    } else if n == 4 {
        '4'
    } else if n == 5 {
        '5'
    } else if n == 6 {
        '6'
    } else if n == 7 {
        '7'
    } else if n == 8 {
        '8'
    } else if n == 9 {
        '9'
    } else if n == 10 {
        'a'
    } else if n == 11 {
        'b'
    } else if n == 12 {
        'c'
    } else if n == 13 {
        'd'
    } else if n == 14 {
        'e'
    } else {
        'f'
    }
}

/// Append one character to `out` in its JSON-string-literal form.
fn append_escaped_char(out: &mut String, c: char)
    ensures
        final(out)@ == old(out)@ + escape_char(c),
{
    if c == '"' {
        out.append("\\\"");
        proof {
            reveal_strlit("\\\"");
            assert(out@ =~= old(out)@ + escape_char(c));
        }
    } else if c == '\\' {
        out.append("\\\\");
        proof {
            reveal_strlit("\\\\");
            assert(out@ =~= old(out)@ + escape_char(c));
        }
    } else if c == '\u{8}' {
        out.append("\\b");
        proof {
            reveal_strlit("\\b");
            assert(out@ =~= old(out)@ + escape_char(c));
        }
    } else if c == '\t' {
        out.append("\\t");
        proof {
            reveal_strlit("\\t");
            assert(out@ =~= old(out)@ + escape_char(c));
        }
    } else if c == '\n' {
        out.append("\\n");
        proof {
            reveal_strlit("\\n");
            assert(out@ =~= old(out)@ + escape_char(c));
        }
    } else if c == '\u{c}' {
        out.append("\\f");
        proof {
            reveal_strlit("\\f");
            assert(out@ =~= old(out)@ + escape_char(c));
        }
    } else if c == '\r' {
        out.append("\\r");
        proof {
            reveal_strlit("\\r");
            assert(out@ =~= old(out)@ + escape_char(c));
        }
    } else if (c as u32) < 32 {
        out.append("\\u00");
        let n: u32 = c as u32;
        let hi = hex_char_of(n / 16);
        let lo = hex_char_of(n % 16);
        push_char(out, hi);
        push_char(out, lo);
        proof {
            reveal_strlit("\\u00");
            assert(out@ =~= old(out)@ + escape_char(c));
        }
    } else {
        push_char(out, c);
        proof {
            assert(out@ =~= old(out)@ + escape_char(c));
        }
    }
}

/// Escape a text for inclusion inside a JSON string literal.
pub fn escape_json_text(text: &str) -> (r: String)
    ensures
        r@ == json_escape(text@),
{
    let len = text.unicode_len();
    let mut out = String::new();
    let mut i: usize = 0;
    while i < len
        invariant
            len == text@.len(),
            i <= len,
            out@ == json_escape(text@.subrange(0, i as int)),
        decreases len - i,
    {
        let c = text.get_char(i);
        append_escaped_char(&mut out, c);
        proof {
            assert(text@.subrange(0, i as int + 1).drop_last() =~= text@.subrange(0, i as int));
            assert(text@.subrange(0, i as int + 1).last() == text@[i as int]);
        }
        i = i + 1;
    }
    proof {
        assert(text@.subrange(0, len as int) =~= text@);
    }
    out
}

/// The text standing before the caller's message in the notification envelope
/// that `send_pop_window` builds.
pub open spec fn popup_prefix() -> Seq<char> {
    "{\"jsonrpc\": \"2.0\", \"id\": 2, \"method\": \"window/showMessage\", \"params\" : { \"type\": 3, \"message\": \""@
}

/// The text standing after the caller's message in the notification envelope
/// that `send_pop_window` builds.
pub open spec fn popup_suffix() -> Seq<char> {
    "\"}}"@
}

/// Build the complete JSON-RPC `window/showMessage` notification envelope
/// around the given text. The text is escaped into JSON-string-literal form,
/// so any text yields a valid envelope whose message field is that text.
pub fn build_popup_message(popup_text: &str) -> (r: String)
    ensures
        r@ == popup_prefix() + json_escape(popup_text@) + popup_suffix(),
{
    let mut s = String::new();
    s.append(
        "{\"jsonrpc\": \"2.0\", \"id\": 2, \"method\": \"window/showMessage\", \"params\" : { \"type\": 3, \"message\": \"",
    );
    let escaped = escape_json_text(popup_text);
    s.append(escaped.as_str());
    s.append("\"}}");
    proof {
        assert(s@ =~= popup_prefix() + json_escape(popup_text@) + popup_suffix());
    }
    s
}

impl<T: std::io::Write> JsonSender<T> {
    /// Frame the already-serialized JSON text and write it to the owned
    /// writer: a `Content-Length` header counting the payload's bytes (not
    /// its characters), the blank separator line, then the payload itself.
    /// The writer is not flushed.
    pub fn send_message(&mut self, msg_to_send: &str) -> (r: Result<(), LspIoErr>)
        ensures
            r matches Err(e) ==> e matches LspIoErr::IoWrite(_),
    {
        let frame = wire::frame_payload(msg_to_send.as_bytes());
        match write_all_bytes(&mut self.writer, frame.as_slice()) {
            Ok(_) => Ok(()),
            Err(e) => Err(LspIoErr::IoWrite(e)),
        }
    }

    /// Send a JSON-RPC `window/showMessage` notification asking the client to
    /// pop up the given text.
    pub fn send_pop_window(&mut self, popup_text: &str) -> (r: Result<(), LspIoErr>)
        ensures
            r matches Err(e) ==> e matches LspIoErr::IoWrite(_),
    {
        let msg = build_popup_message(popup_text);
        self.send_message(msg.as_str())
    }
}

} // verus!
