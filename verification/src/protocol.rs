//! The wire protocol: the message model and its JSON codec.
//!
//! The envelope is a JSON object with a `type` discriminator (`hello`,
//! `update`, `clear`, `ack`) and camelCase member names. The decoder reads
//! the JSON grammar: whitespace between tokens, members in any order,
//! unknown members skipped, and string values with the full set of JSON
//! escapes, surrogate pairs included. A member named like a protocol field
//! must carry that field's type, whichever message it appears in. Raw
//! control characters inside strings, duplicate members, lone surrogates
//! and trailing data are rejected as `Syntax`; a required member absent at
//! the object's end is `MissingField`; an unknown `type` or service
//! variant is `UnknownTag`; a wrongly shaped or out-of-range value is
//! `TypeMismatch`. Encoding never fails, emits no whitespace, escapes `"`,
//! `\` and every control character, and decoding an encoded message gives
//! the message back.

use vstd::prelude::*;
use vstd::string::StrSliceExecFns;
use vstd::string::StringExecFns;

use crate::services::MusicServiceInfo;
use crate::services::MusicServiceInfoModel;
use crate::services::Service;
use crate::services::ServiceModel;

verus! {

/// The unit of wire communication.
///
/// `Hello` and `Ack` travel server to client; `Update` and `Clear` travel
/// client to server. `time` is an epoch timestamp in seconds; `app_id`
/// identifies the relay to the presence provider; `id` is chosen by the
/// client and echoed in the matching `Ack`.
#[derive(Debug, Clone, PartialEq, Eq)]
pub enum Message {
    Hello { msg: String, time: u64, app_id: u64 },
    Update { service: Service, id: u16 },
    Clear { id: u16 },
    Ack { id: u16 },
}

/// Mathematical model of [`Message`].
pub enum MessageModel {
    Hello { msg: Seq<char>, time: u64, app_id: u64 },
    Update { service: ServiceModel, id: u16 },
    Clear { id: u16 },
    Ack { id: u16 },
}

impl View for Message {
    type V = MessageModel;

    open spec fn view(&self) -> MessageModel {
        match self {
            Message::Hello { msg, time, app_id } => MessageModel::Hello {
                msg: msg@,
                time: *time,
                app_id: *app_id,
            },
            Message::Update { service, id } => MessageModel::Update {
                service: service@,
                id: *id,
            },
            Message::Clear { id } => MessageModel::Clear { id: *id },
            Message::Ack { id } => MessageModel::Ack { id: *id },
        }
    }
}

/// Why an inbound frame was rejected.
#[derive(Debug, Clone, Copy, PartialEq, Eq, Structural)]
pub enum DecodeError {
    /// The text is not a well-formed message object.
    Syntax,
    /// A required member is absent from the object.
    MissingField,
    /// The `type` discriminator, or the service variant, is unknown.
    UnknownTag,
    /// A member holds a value of the wrong shape or out of range.
    TypeMismatch,
}

// ---------------------------------------------------------------------------
// Digits and hexadecimal digits.
// ---------------------------------------------------------------------------

pub open spec fn digit_char(d: int) -> char {
    if d == 0 {
        '0'
    } else if d == 1 {
        '1'
    } else if d == 2 {
        '2'
    } else if d == 3 {
        '3'
    } else if d == 4 {
        '4'
    } else if d == 5 {
        '5'
    } else if d == 6 {
        '6'
    } else if d == 7 {
        '7'
    } else if d == 8 {
        '8'
    } else {
        '9'
    }
}

pub open spec fn is_digit_char(c: char) -> bool {
    c == '0' || c == '1' || c == '2' || c == '3' || c == '4' || c == '5' || c == '6' || c == '7'
        || c == '8' || c == '9'
}

pub open spec fn digit_val(c: char) -> int {
    if c == '1' {
        1
    } else if c == '2' {
        2
    } else if c == '3' {
        3
    } else if c == '4' {
        4
    } else if c == '5' {
        5
    } else if c == '6' {
        6
    } else if c == '7' {
        7
    } else if c == '8' {
        8
    } else if c == '9' {
        9
    } else {
        0
    }
}

/// The number denoted by a run of decimal digits, most significant first.
pub open spec fn val_of_digits(d: Seq<char>) -> nat
    decreases d.len(),
{
    if d.len() == 0 {
        0
    } else {
        (val_of_digits(d.drop_last()) * 10 + digit_val(d.last())) as nat
    }
}

/// The lower-case hexadecimal digit for `0 ..= 15`.
pub open spec fn hex_char(d: int) -> char {
    if d < 10 {
        digit_char(d)
    } else if d == 10 {
        'a'
    } else if d == 11 {
        'b'
    } else if d == 12 {
        'c'
    } else if d == 13 {
        'd'
    } else if d == 14 {
        'e'
    } else {
        'f'
    }
}

/// The value of a hexadecimal digit, either case; `-1` for anything else.
pub open spec fn hex_val(c: char) -> int {
    if is_digit_char(c) {
        digit_val(c)
    } else if c == 'a' || c == 'A' {
        10
    } else if c == 'b' || c == 'B' {
        11
    } else if c == 'c' || c == 'C' {
        12
    } else if c == 'd' || c == 'D' {
        13
    } else if c == 'e' || c == 'E' {
        14
    } else if c == 'f' || c == 'F' {
        15
    } else {
        -1
    }
}

/// The value of four hexadecimal digits at `i`; `-1` if any is missing.
pub open spec fn hex4_at(s: Seq<char>, i: int) -> int {
    if 0 <= i && i + 4 <= s.len() && hex_val(s[i]) >= 0 && hex_val(s[i + 1]) >= 0 && hex_val(
        s[i + 2],
    ) >= 0 && hex_val(s[i + 3]) >= 0 {
        hex_val(s[i]) * 4096 + hex_val(s[i + 1]) * 256 + hex_val(s[i + 2]) * 16 + hex_val(s[i + 3])
    } else {
        -1
    }
}

// ---------------------------------------------------------------------------
// Specification of the encoding.
// ---------------------------------------------------------------------------

/// How one character appears inside a JSON string value: `"` and `\` get a
/// backslash, control characters are escaped by name or as `\u00XX`,
/// everything else stands for itself.
pub open spec fn esc_char(c: char) -> Seq<char> {
    if c == '"' {
        seq!['\\', '"']
    } else if c == '\\' {
        seq!['\\', '\\']
    } else if c == '\u{8}' {
        seq!['\\', 'b']
    } else if c == '\u{c}' {
        seq!['\\', 'f']
    } else if c == '\n' {
        seq!['\\', 'n']
    } else if c == '\r' {
        seq!['\\', 'r']
    } else if c == '\t' {
        seq!['\\', 't']
    } else if (c as u32) < 0x20 {
        seq!['\\', 'u', '0', '0', hex_char((c as u32) as int / 16), hex_char((c as u32) as int % 16)]
    } else {
        seq![c]
    }
}

/// The body of a JSON string value: each character escaped.
pub open spec fn spec_escape(s: Seq<char>) -> Seq<char>
    decreases s.len(),
{
    if s.len() == 0 {
        Seq::empty()
    } else {
        spec_escape(s.drop_last()) + esc_char(s.last())
    }
}

/// A JSON string value: the escaped body between quotes.
pub open spec fn spec_encode_string(s: Seq<char>) -> Seq<char> {
    seq!['"'] + spec_escape(s) + seq!['"']
}

/// A decimal integer, most significant digit first, no leading zeros except
/// for zero itself.
pub open spec fn spec_encode_nat(n: nat) -> Seq<char>
    decreases n,
{
    if n < 10 {
        seq![digit_char(n as int)]
    } else {
        spec_encode_nat(n / 10).push(digit_char((n % 10) as int))
    }
}

pub open spec fn spec_encode_bool(b: bool) -> Seq<char> {
    if b {
        "true"@
    } else {
        "false"@
    }
}

/// The wire form of a music-info object.
pub open spec fn spec_encode_music(info: MusicServiceInfoModel) -> Seq<char> {
    "{\""@ + ("song\""@ + (":"@ + (spec_encode_string(info.song) + (",\""@ + ("artist\""@
        + (":"@ + (spec_encode_string(info.artist) + (",\""@ + ("paused\""@ + (":"@
        + (spec_encode_bool(info.paused) + "}"@)))))))))))
}

/// The wire form of a message: its tokens in the documented order, with no
/// whitespace.
pub open spec fn spec_encode(m: MessageModel) -> Seq<char> {
    match m {
        MessageModel::Hello { msg, time, app_id } => "{\""@ + ("type\""@ + (":"@ + ("\""@
            + ("hello\""@ + (",\""@ + ("msg\""@ + (":"@ + (spec_encode_string(msg) + (",\""@
            + ("time\""@ + (":"@ + (spec_encode_nat(time as nat) + (",\""@ + ("appId\""@ + (":"@
            + (spec_encode_nat(app_id as nat) + "}"@)))))))))))))))),
        MessageModel::Update { service, id } => match service {
            ServiceModel::YouTubeMusic(info) => "{\""@ + ("type\""@ + (":"@ + ("\""@
                + ("update\""@ + (",\""@ + ("service\""@ + (":"@ + ("{\""@ + ("youTubeMusic\""@
                + (":"@ + (spec_encode_music(info) + ("}"@ + (",\""@ + ("id\""@ + (":"@
                + (spec_encode_nat(id as nat) + "}"@)))))))))))))))),
        },
        MessageModel::Clear { id } => "{\""@ + ("type\""@ + (":"@ + ("\""@ + ("clear\""@ + (",\""@
            + ("id\""@ + (":"@ + (spec_encode_nat(id as nat) + "}"@)))))))),
        MessageModel::Ack { id } => "{\""@ + ("type\""@ + (":"@ + ("\""@ + ("ack\""@ + (",\""@
            + ("id\""@ + (":"@ + (spec_encode_nat(id as nat) + "}"@)))))))),
    }
}

// ---------------------------------------------------------------------------
// Executable encoder.
// ---------------------------------------------------------------------------

fn digit_str(d: u64) -> (r: &'static str)
    requires
        d < 10,
    ensures
        r@ == seq![digit_char(d as int)],
{
    let r: &'static str = if d == 0 {
        "0"
    } else if d == 1 {
        "1"
    } else if d == 2 {
        "2"
    } else if d == 3 {
        "3"
    } else if d == 4 {
        "4"
    } else if d == 5 {
        "5"
    } else if d == 6 {
        "6"
    } else if d == 7 {
        "7"
    } else if d == 8 {
        "8"
    } else {
        "9"
    };
    proof {
        reveal_strlit("0");
        reveal_strlit("1");
        reveal_strlit("2");
        reveal_strlit("3");
        reveal_strlit("4");
        reveal_strlit("5");
        reveal_strlit("6");
        reveal_strlit("7");
        reveal_strlit("8");
        reveal_strlit("9");
        assert(r@ =~= seq![digit_char(d as int)]);
    }
    r
}

fn hex_str(d: u32) -> (r: &'static str)
    requires
        d < 16,
    ensures
        r@ == seq![hex_char(d as int)],
{
    if d < 10 {
        digit_str(d as u64)
    } else {
        let r: &'static str = if d == 10 {
            "a"
        } else if d == 11 {
            "b"
        } else if d == 12 {
            "c"
        } else if d == 13 {
            "d"
        } else if d == 14 {
            "e"
        } else {
            "f"
        };
        proof {
            reveal_strlit("a");
            reveal_strlit("b");
            reveal_strlit("c");
            reveal_strlit("d");
            reveal_strlit("e");
            reveal_strlit("f");
            assert(r@ =~= seq![hex_char(d as int)]);
        }
        r
    }
}

/// Appends the decimal form of `n`.
fn encode_u64_into(out: &mut String, n: u64)
    ensures
        final(out)@ == old(out)@ + spec_encode_nat(n as nat),
    decreases n,
{
    if n < 10 {
        out.append(digit_str(n));
    } else {
        encode_u64_into(out, n / 10);
        out.append(digit_str(n % 10));
    }
}

/// Appends the JSON string form of `s`: quoted, with `"`, `\` and control
/// characters escaped.
fn encode_string_into(out: &mut String, s: &str)
    ensures
        final(out)@ == old(out)@ + spec_encode_string(s@),
{
    out.append("\"");
    proof {
        reveal_strlit("\"");
    }
    let n = s.unicode_len();
    let mut i: usize = 0;
    while i < n
        invariant
            n == s@.len(),
            i <= n,
            out@ == old(out)@ + seq!['"'] + spec_escape(s@.take(i as int)),
        decreases n - i,
    {
        let c = s.get_char(i);
        if c == '"' {
            out.append("\\\"");
        } else if c == '\\' {
            out.append("\\\\");
        } else if c == '\u{8}' {
            out.append("\\b");
        } else if c == '\u{c}' {
            out.append("\\f");
        } else if c == '\n' {
            out.append("\\n");
        } else if c == '\r' {
            out.append("\\r");
        } else if c == '\t' {
            out.append("\\t");
        } else {
            let v = c as u32;
            if v < 0x20 {
                out.append("\\u00");
                out.append(hex_str(v / 16));
                out.append(hex_str(v % 16));
            } else {
                out.append(s.substring_char(i, i + 1));
            }
        }
        proof {
            reveal_strlit("\\\"");
            reveal_strlit("\\\\");
            reveal_strlit("\\b");
            reveal_strlit("\\f");
            reveal_strlit("\\n");
            reveal_strlit("\\r");
            reveal_strlit("\\t");
            reveal_strlit("\\u00");
            assert(s@.take(i + 1 as int).drop_last() =~= s@.take(i as int));
            assert(s@.take(i + 1 as int).last() == s@[i as int]);
            assert(s@.subrange(i as int, i + 1 as int) =~= seq![s@[i as int]]);
            assert(out@ =~= old(out)@ + seq!['"'] + spec_escape(s@.take(i + 1 as int)));
        }
        i += 1;
    }
    proof {
        assert(s@.take(n as int) =~= s@);
    }
    out.append("\"");
    proof {
        assert(out@ =~= old(out)@ + spec_encode_string(s@));
    }
}

#[verifier::rlimit(100)]
fn encode_hello(msg: &str, time: u64, app_id: u64) -> (out: String)
    ensures
        out@ == spec_encode(MessageModel::Hello { msg: msg@, time, app_id }),
{
    let mut out = String::new();
    out.append("{\"");
    out.append("type\"");
    out.append(":");
    out.append("\"");
    out.append("hello\"");
    out.append(",\"");
    out.append("msg\"");
    out.append(":");
    encode_string_into(&mut out, msg);
    out.append(",\"");
    out.append("time\"");
    out.append(":");
    encode_u64_into(&mut out, time);
    out.append(",\"");
    out.append("appId\"");
    out.append(":");
    encode_u64_into(&mut out, app_id);
    out.append("}");
    proof {
        let ghost pr1 = "{\""@;
        let ghost pr2 = pr1 + "type\""@;
        let ghost pr3 = pr2 + ":"@;
        let ghost pr4 = pr3 + "\""@;
        let ghost pr5 = pr4 + "hello\""@;
        let ghost pr6 = pr5 + ",\""@;
        let ghost pr7 = pr6 + "msg\""@;
        let ghost pr8 = pr7 + ":"@;
        let ghost pr9 = pr8 + spec_encode_string(msg@);
        let ghost pr10 = pr9 + ",\""@;
        let ghost pr11 = pr10 + "time\""@;
        let ghost pr12 = pr11 + ":"@;
        let ghost pr13 = pr12 + spec_encode_nat(time as nat);
        let ghost pr14 = pr13 + ",\""@;
        let ghost pr15 = pr14 + "appId\""@;
        let ghost pr16 = pr15 + ":"@;
        let ghost pr17 = pr16 + spec_encode_nat(app_id as nat);
        let ghost pr18 = pr17 + "}"@;
        let ghost sf18 = "}"@;
        let ghost sf17 = spec_encode_nat(app_id as nat) + sf18;
        let ghost sf16 = ":"@ + sf17;
        let ghost sf15 = "appId\""@ + sf16;
        let ghost sf14 = ",\""@ + sf15;
        let ghost sf13 = spec_encode_nat(time as nat) + sf14;
        let ghost sf12 = ":"@ + sf13;
        let ghost sf11 = "time\""@ + sf12;
        let ghost sf10 = ",\""@ + sf11;
        let ghost sf9 = spec_encode_string(msg@) + sf10;
        let ghost sf8 = ":"@ + sf9;
        let ghost sf7 = "msg\""@ + sf8;
        let ghost sf6 = ",\""@ + sf7;
        let ghost sf5 = "hello\""@ + sf6;
        let ghost sf4 = "\""@ + sf5;
        let ghost sf3 = ":"@ + sf4;
        let ghost sf2 = "type\""@ + sf3;
        let ghost sf1 = "{\""@ + sf2;
        assert(Seq::<char>::empty() + "{\""@ =~= "{\""@);
        assert(out@ == pr18);
        assert(pr18 =~= pr17 + sf18);
        assert(pr17 + sf18 =~= pr16 + sf17);
        assert(pr16 + sf17 =~= pr15 + sf16);
        assert(pr15 + sf16 =~= pr14 + sf15);
        assert(pr14 + sf15 =~= pr13 + sf14);
        assert(pr13 + sf14 =~= pr12 + sf13);
        assert(pr12 + sf13 =~= pr11 + sf12);
        assert(pr11 + sf12 =~= pr10 + sf11);
        assert(pr10 + sf11 =~= pr9 + sf10);
        assert(pr9 + sf10 =~= pr8 + sf9);
        assert(pr8 + sf9 =~= pr7 + sf8);
        assert(pr7 + sf8 =~= pr6 + sf7);
        assert(pr6 + sf7 =~= pr5 + sf6);
        assert(pr5 + sf6 =~= pr4 + sf5);
        assert(pr4 + sf5 =~= pr3 + sf4);
        assert(pr3 + sf4 =~= pr2 + sf3);
        assert(pr2 + sf3 =~= pr1 + sf2);
        assert(pr1 + sf2 =~= sf1);
        assert(out@ == spec_encode(MessageModel::Hello { msg: msg@, time, app_id }));
    }
    out
}

#[verifier::rlimit(100)]
fn encode_music_into(out: &mut String, info: &MusicServiceInfo)
    ensures
        final(out)@ == old(out)@ + spec_encode_music(info@),
{
    out.append("{\"");
    out.append("song\"");
    out.append(":");
    encode_string_into(out, info.song.as_str());
    out.append(",\"");
    out.append("artist\"");
    out.append(":");
    encode_string_into(out, info.artist.as_str());
    out.append(",\"");
    out.append("paused\"");
    out.append(":");
    if info.paused {
        out.append("true");
    } else {
        out.append("false");
    }
    out.append("}");
    proof {
        let ghost pr1 = old(out)@ + "{\""@;
        let ghost pr2 = pr1 + "song\""@;
        let ghost pr3 = pr2 + ":"@;
        let ghost pr4 = pr3 + spec_encode_string(info.song@);
        let ghost pr5 = pr4 + ",\""@;
        let ghost pr6 = pr5 + "artist\""@;
        let ghost pr7 = pr6 + ":"@;
        let ghost pr8 = pr7 + spec_encode_string(info.artist@);
        let ghost pr9 = pr8 + ",\""@;
        let ghost pr10 = pr9 + "paused\""@;
        let ghost pr11 = pr10 + ":"@;
        let ghost pr12 = pr11 + spec_encode_bool(info.paused);
        let ghost pr13 = pr12 + "}"@;
        let ghost sf13 = "}"@;
        let ghost sf12 = spec_encode_bool(info.paused) + sf13;
        let ghost sf11 = ":"@ + sf12;
        let ghost sf10 = "paused\""@ + sf11;
        let ghost sf9 = ",\""@ + sf10;
        let ghost sf8 = spec_encode_string(info.artist@) + sf9;
        let ghost sf7 = ":"@ + sf8;
        let ghost sf6 = "artist\""@ + sf7;
        let ghost sf5 = ",\""@ + sf6;
        let ghost sf4 = spec_encode_string(info.song@) + sf5;
        let ghost sf3 = ":"@ + sf4;
        let ghost sf2 = "song\""@ + sf3;
        let ghost sf1 = "{\""@ + sf2;
        assert(out@ == pr13);
        assert(pr13 =~= pr12 + sf13);
        assert(pr12 + sf13 =~= pr11 + sf12);
        assert(pr11 + sf12 =~= pr10 + sf11);
        assert(pr10 + sf11 =~= pr9 + sf10);
        assert(pr9 + sf10 =~= pr8 + sf9);
        assert(pr8 + sf9 =~= pr7 + sf8);
        assert(pr7 + sf8 =~= pr6 + sf7);
        assert(pr6 + sf7 =~= pr5 + sf6);
        assert(pr5 + sf6 =~= pr4 + sf5);
        assert(pr4 + sf5 =~= pr3 + sf4);
        assert(pr3 + sf4 =~= pr2 + sf3);
        assert(pr2 + sf3 =~= pr1 + sf2);
        assert(pr1 + sf2 =~= old(out)@ + sf1);
        assert(out@ == old(out)@ + spec_encode_music(info@));
    }
}

#[verifier::rlimit(100)]
fn encode_update(info: &MusicServiceInfo, id: u16) -> (out: String)
    ensures
        out@ == spec_encode(
            MessageModel::Update { service: ServiceModel::YouTubeMusic(info@), id },
        ),
{
    let mut out = String::new();
    out.append("{\"");
    out.append("type\"");
    out.append(":");
    out.append("\"");
    out.append("update\"");
    out.append(",\"");
    out.append("service\"");
    out.append(":");
    out.append("{\"");
    out.append("youTubeMusic\"");
    out.append(":");
    encode_music_into(&mut out, info);
    out.append("}");
    out.append(",\"");
    out.append("id\"");
    out.append(":");
    encode_u64_into(&mut out, id as u64);
    out.append("}");
    proof {
        let ghost pr1 = Seq::<char>::empty() + "{\""@;
        let ghost pr2 = pr1 + "type\""@;
        let ghost pr3 = pr2 + ":"@;
        let ghost pr4 = pr3 + "\""@;
        let ghost pr5 = pr4 + "update\""@;
        let ghost pr6 = pr5 + ",\""@;
        let ghost pr7 = pr6 + "service\""@;
        let ghost pr8 = pr7 + ":"@;
        let ghost pr9 = pr8 + "{\""@;
        let ghost pr10 = pr9 + "youTubeMusic\""@;
        let ghost pr11 = pr10 + ":"@;
        let ghost pr12 = pr11 + spec_encode_music(info@);
        let ghost pr13 = pr12 + "}"@;
        let ghost pr14 = pr13 + ",\""@;
        let ghost pr15 = pr14 + "id\""@;
        let ghost pr16 = pr15 + ":"@;
        let ghost pr17 = pr16 + spec_encode_nat(id as nat);
        let ghost pr18 = pr17 + "}"@;
        let ghost sf18 = "}"@;
        let ghost sf17 = spec_encode_nat(id as nat) + sf18;
        let ghost sf16 = ":"@ + sf17;
        let ghost sf15 = "id\""@ + sf16;
        let ghost sf14 = ",\""@ + sf15;
        let ghost sf13 = "}"@ + sf14;
        let ghost sf12 = spec_encode_music(info@) + sf13;
        let ghost sf11 = ":"@ + sf12;
        let ghost sf10 = "youTubeMusic\""@ + sf11;
        let ghost sf9 = "{\""@ + sf10;
        let ghost sf8 = ":"@ + sf9;
        let ghost sf7 = "service\""@ + sf8;
        let ghost sf6 = ",\""@ + sf7;
        let ghost sf5 = "update\""@ + sf6;
        let ghost sf4 = "\""@ + sf5;
        let ghost sf3 = ":"@ + sf4;
        let ghost sf2 = "type\""@ + sf3;
        let ghost sf1 = "{\""@ + sf2;
        assert(out@ == pr18);
        assert(pr18 =~= pr17 + sf18);
        assert(pr17 + sf18 =~= pr16 + sf17);
        assert(pr16 + sf17 =~= pr15 + sf16);
        assert(pr15 + sf16 =~= pr14 + sf15);
        assert(pr14 + sf15 =~= pr13 + sf14);
        assert(pr13 + sf14 =~= pr12 + sf13);
        assert(pr12 + sf13 =~= pr11 + sf12);
        assert(pr11 + sf12 =~= pr10 + sf11);
        assert(pr10 + sf11 =~= pr9 + sf10);
        assert(pr9 + sf10 =~= pr8 + sf9);
        assert(pr8 + sf9 =~= pr7 + sf8);
        assert(pr7 + sf8 =~= pr6 + sf7);
        assert(pr6 + sf7 =~= pr5 + sf6);
        assert(pr5 + sf6 =~= pr4 + sf5);
        assert(pr4 + sf5 =~= pr3 + sf4);
        assert(pr3 + sf4 =~= pr2 + sf3);
        assert(pr2 + sf3 =~= pr1 + sf2);
        assert(pr1 + sf2 =~= Seq::<char>::empty() + sf1);
        assert(out@ == Seq::<char>::empty() + spec_encode(MessageModel::Update { service: ServiceModel::YouTubeMusic(info@), id }));
    }
    out
}

fn encode_clear(id: u16) -> (out: String)
    ensures
        out@ == spec_encode(MessageModel::Clear { id }),
{
    let mut out = String::new();
    out.append("{\"");
    out.append("type\"");
    out.append(":");
    out.append("\"");
    out.append("clear\"");
    out.append(",\"");
    out.append("id\"");
    out.append(":");
    encode_u64_into(&mut out, id as u64);
    out.append("}");
    proof {
        let ghost pr1 = "{\""@;
        let ghost pr2 = pr1 + "type\""@;
        let ghost pr3 = pr2 + ":"@;
        let ghost pr4 = pr3 + "\""@;
        let ghost pr5 = pr4 + "clear\""@;
        let ghost pr6 = pr5 + ",\""@;
        let ghost pr7 = pr6 + "id\""@;
        let ghost pr8 = pr7 + ":"@;
        let ghost pr9 = pr8 + spec_encode_nat(id as nat);
        let ghost pr10 = pr9 + "}"@;
        let ghost sf10 = "}"@;
        let ghost sf9 = spec_encode_nat(id as nat) + sf10;
        let ghost sf8 = ":"@ + sf9;
        let ghost sf7 = "id\""@ + sf8;
        let ghost sf6 = ",\""@ + sf7;
        let ghost sf5 = "clear\""@ + sf6;
        let ghost sf4 = "\""@ + sf5;
        let ghost sf3 = ":"@ + sf4;
        let ghost sf2 = "type\""@ + sf3;
        let ghost sf1 = "{\""@ + sf2;
        assert(Seq::<char>::empty() + "{\""@ =~= "{\""@);
        assert(out@ == pr10);
        assert(pr10 =~= pr9 + sf10);
        assert(pr9 + sf10 =~= pr8 + sf9);
        assert(pr8 + sf9 =~= pr7 + sf8);
        assert(pr7 + sf8 =~= pr6 + sf7);
        assert(pr6 + sf7 =~= pr5 + sf6);
        assert(pr5 + sf6 =~= pr4 + sf5);
        assert(pr4 + sf5 =~= pr3 + sf4);
        assert(pr3 + sf4 =~= pr2 + sf3);
        assert(pr2 + sf3 =~= pr1 + sf2);
        assert(pr1 + sf2 =~= sf1);
        assert(out@ == spec_encode(MessageModel::Clear { id }));
    }
    out
}

fn encode_ack(id: u16) -> (out: String)
    ensures
        out@ == spec_encode(MessageModel::Ack { id }),
{
    let mut out = String::new();
    out.append("{\"");
    out.append("type\"");
    out.append(":");
    out.append("\"");
    out.append("ack\"");
    out.append(",\"");
    out.append("id\"");
    out.append(":");
    encode_u64_into(&mut out, id as u64);
    out.append("}");
    proof {
        let ghost pr1 = "{\""@;
        let ghost pr2 = pr1 + "type\""@;
        let ghost pr3 = pr2 + ":"@;
        let ghost pr4 = pr3 + "\""@;
        let ghost pr5 = pr4 + "ack\""@;
        let ghost pr6 = pr5 + ",\""@;
        let ghost pr7 = pr6 + "id\""@;
        let ghost pr8 = pr7 + ":"@;
        let ghost pr9 = pr8 + spec_encode_nat(id as nat);
        let ghost pr10 = pr9 + "}"@;
        let ghost sf10 = "}"@;
        let ghost sf9 = spec_encode_nat(id as nat) + sf10;
        let ghost sf8 = ":"@ + sf9;
        let ghost sf7 = "id\""@ + sf8;
        let ghost sf6 = ",\""@ + sf7;
        let ghost sf5 = "ack\""@ + sf6;
        let ghost sf4 = "\""@ + sf5;
        let ghost sf3 = ":"@ + sf4;
        let ghost sf2 = "type\""@ + sf3;
        let ghost sf1 = "{\""@ + sf2;
        assert(Seq::<char>::empty() + "{\""@ =~= "{\""@);
        assert(out@ == pr10);
        assert(pr10 =~= pr9 + sf10);
        assert(pr9 + sf10 =~= pr8 + sf9);
        assert(pr8 + sf9 =~= pr7 + sf8);
        assert(pr7 + sf8 =~= pr6 + sf7);
        assert(pr6 + sf7 =~= pr5 + sf6);
        assert(pr5 + sf6 =~= pr4 + sf5);
        assert(pr4 + sf5 =~= pr3 + sf4);
        assert(pr3 + sf4 =~= pr2 + sf3);
        assert(pr2 + sf3 =~= pr1 + sf2);
        assert(pr1 + sf2 =~= sf1);
        assert(out@ == spec_encode(MessageModel::Ack { id }));
    }
    out
}

/// Encodes a message for the wire. Encoding never fails for an in-memory
/// message; the result is exactly the token sequence of [`spec_encode`].
pub fn encode(m: &Message) -> (out: String)
    ensures
        out@ == spec_encode(m@),
{
    match m {
        Message::Hello { msg, time, app_id } => encode_hello(msg.as_str(), *time, *app_id),
        Message::Update { service, id } => {
            let Service::YouTubeMusic(info) = service;
            encode_update(info, *id)
        },
        Message::Clear { id } => encode_clear(*id),
        Message::Ack { id } => encode_ack(*id),
    }
}

// ---------------------------------------------------------------------------
// Specification of the decoding.
// ---------------------------------------------------------------------------

/// JSON insignificant whitespace.
pub open spec fn is_ws(c: char) -> bool {
    c == ' ' || c == '\t' || c == '\n' || c == '\r'
}

/// The first position at or after `i` that holds no whitespace.
pub open spec fn spec_skip_ws(s: Seq<char>, i: int) -> int
    decreases s.len() - i,
{
    if 0 <= i && i < s.len() && is_ws(s[i]) {
        spec_skip_ws(s, i + 1)
    } else {
        i
    }
}

/// The literal token `lit` stands in `s` at position `i`.
pub open spec fn lit_at(s: Seq<char>, i: int, lit: Seq<char>) -> bool {
    0 <= i && i + lit.len() <= s.len() && s.subrange(i, i + lit.len()) == lit
}

/// What a single-character escape denotes, or `None` if the letter is not
/// one of JSON's.
pub open spec fn esc_unescape(c: char) -> Option<char> {
    if c == '"' {
        Some('"')
    } else if c == '\\' {
        Some('\\')
    } else if c == '/' {
        Some('/')
    } else if c == 'b' {
        Some('\u{8}')
    } else if c == 'f' {
        Some('\u{c}')
    } else if c == 'n' {
        Some('\n')
    } else if c == 'r' {
        Some('\r')
    } else if c == 't' {
        Some('\t')
    } else {
        None
    }
}

/// A `\uXXXX` value is a Unicode scalar value unless it is a surrogate.
pub open spec fn is_scalar_value(v: int) -> bool {
    (0 <= v && v < 0xD800) || (0xE000 <= v && v <= 0x10FFFF)
}

/// Parses the remainder of a JSON string value, after its opening quote:
/// the unescaped content and the position just past the closing quote.
/// Escapes are JSON's: the named ones, `\uXXXX`, and surrogate pairs; a
/// lone surrogate or a raw control character is a syntax error.
pub open spec fn spec_parse_str_rest(s: Seq<char>, i: int) -> Result<(Seq<char>, int), DecodeError>
    decreases s.len() - i,
{
    if i < 0 || i >= s.len() {
        Err(DecodeError::Syntax)
    } else if s[i] == '"' {
        Ok((Seq::empty(), i + 1))
    } else if s[i] == '\\' {
        if i + 1 >= s.len() {
            Err(DecodeError::Syntax)
        } else if s[i + 1] == 'u' {
            let v = hex4_at(s, i + 2);
            if v < 0 {
                Err(DecodeError::Syntax)
            } else if 0xD800 <= v && v < 0xDC00 {
                if i + 8 <= s.len() && s[i + 6] == '\\' && s[i + 7] == 'u' {
                    let w = hex4_at(s, i + 8);
                    if 0xDC00 <= w && w < 0xE000 {
                        let cp = 0x10000 + (v - 0xD800) * 0x400 + (w - 0xDC00);
                        match spec_parse_str_rest(s, i + 12) {
                            Ok((t, j)) => Ok((seq![(cp as u32) as char] + t, j)),
                            Err(e) => Err(e),
                        }
                    } else {
                        Err(DecodeError::Syntax)
                    }
                } else {
                    Err(DecodeError::Syntax)
                }
            } else if 0xDC00 <= v && v < 0xE000 {
                Err(DecodeError::Syntax)
            } else {
                match spec_parse_str_rest(s, i + 6) {
                    Ok((t, j)) => Ok((seq![(v as u32) as char] + t, j)),
                    Err(e) => Err(e),
                }
            }
        } else {
            match esc_unescape(s[i + 1]) {
                Some(c) => match spec_parse_str_rest(s, i + 2) {
                    Ok((t, j)) => Ok((seq![c] + t, j)),
                    Err(e) => Err(e),
                },
                None => Err(DecodeError::Syntax),
            }
        }
    } else if (s[i] as u32) < 0x20 {
        Err(DecodeError::Syntax)
    } else {
        match spec_parse_str_rest(s, i + 1) {
            Ok((t, j)) => Ok((seq![s[i]] + t, j)),
            Err(e) => Err(e),
        }
    }
}

/// Parses a string value, opening quote included; anything else in value
/// position is the wrong type.
pub open spec fn spec_parse_jstring(s: Seq<char>, i: int) -> Result<(Seq<char>, int), DecodeError> {
    if 0 <= i && i < s.len() && s[i] == '"' {
        spec_parse_str_rest(s, i + 1)
    } else {
        Err(DecodeError::TypeMismatch)
    }
}

/// The maximal run of decimal digits from `i`, and the position after it.
pub open spec fn spec_parse_digits(s: Seq<char>, i: int) -> (Seq<char>, int)
    decreases s.len() - i,
{
    if i < 0 || i >= s.len() || !is_digit_char(s[i]) {
        (Seq::empty(), i)
    } else {
        let r = spec_parse_digits(s, i + 1);
        (seq![s[i]] + r.0, r.1)
    }
}

/// Parses an unsigned integer member: a non-empty digit run, no leading
/// zero, no sign, fraction or exponent, whose value fits in a `u64`;
/// anything else is a type mismatch.
pub open spec fn spec_parse_u64(s: Seq<char>, i: int) -> Result<(u64, int), DecodeError> {
    let r = spec_parse_digits(s, i);
    if r.0.len() == 0 {
        Err(DecodeError::TypeMismatch)
    } else if r.0.len() > 1 && r.0[0] == '0' {
        Err(DecodeError::TypeMismatch)
    } else if r.1 < s.len() && (s[r.1] == '.' || s[r.1] == 'e' || s[r.1] == 'E') {
        Err(DecodeError::TypeMismatch)
    } else if val_of_digits(r.0) > u64::MAX {
        Err(DecodeError::TypeMismatch)
    } else {
        Ok((val_of_digits(r.0) as u64, r.1))
    }
}

/// Parses a request id: an unsigned integer in `0 ..= 65535`.
pub open spec fn spec_parse_u16(s: Seq<char>, i: int) -> Result<(u16, int), DecodeError> {
    match spec_parse_u64(s, i) {
        Ok((v, j)) => if v > 65535 {
            Err(DecodeError::TypeMismatch)
        } else {
            Ok((v as u16, j))
        },
        Err(e) => Err(e),
    }
}

pub open spec fn spec_parse_bool(s: Seq<char>, i: int) -> Result<(bool, int), DecodeError> {
    if lit_at(s, i, "true"@) {
        Ok((true, i + "true"@.len()))
    } else if lit_at(s, i, "false"@) {
        Ok((false, i + "false"@.len()))
    } else {
        Err(DecodeError::TypeMismatch)
    }
}

// --- Skipping unknown members' values. ---

/// Skips one JSON number, leniently on leading zeros.
pub open spec fn spec_skip_number(s: Seq<char>, i: int) -> Result<int, DecodeError> {
    let i1 = if 0 <= i && i < s.len() && s[i] == '-' {
        i + 1
    } else {
        i
    };
    let r = spec_parse_digits(s, i1);
    if r.0.len() == 0 {
        Err(DecodeError::Syntax)
    } else {
        match spec_skip_frac(s, r.1) {
            Ok(j) => spec_skip_exp(s, j),
            Err(e) => Err(e),
        }
    }
}

pub open spec fn spec_skip_frac(s: Seq<char>, i: int) -> Result<int, DecodeError> {
    if 0 <= i && i < s.len() && s[i] == '.' {
        let r = spec_parse_digits(s, i + 1);
        if r.0.len() == 0 {
            Err(DecodeError::Syntax)
        } else {
            Ok(r.1)
        }
    } else {
        Ok(i)
    }
}

pub open spec fn spec_skip_exp(s: Seq<char>, i: int) -> Result<int, DecodeError> {
    if 0 <= i && i < s.len() && (s[i] == 'e' || s[i] == 'E') {
        let i1 = if i + 1 < s.len() && (s[i + 1] == '+' || s[i + 1] == '-') {
            i + 2
        } else {
            i + 1
        };
        let r = spec_parse_digits(s, i1);
        if r.0.len() == 0 {
            Err(DecodeError::Syntax)
        } else {
            Ok(r.1)
        }
    } else {
        Ok(i)
    }
}

/// Skips one JSON value of any kind. `fuel` only bounds the recursion; one
/// unit is spent per nested construct, each of which consumes input, so any
/// parse of a real text has fuel to spare.
pub open spec fn spec_skip_value(s: Seq<char>, i: int, fuel: nat) -> Result<int, DecodeError>
    decreases fuel,
{
    if fuel == 0 {
        Err(DecodeError::Syntax)
    } else if i < 0 || i >= s.len() {
        Err(DecodeError::Syntax)
    } else if s[i] == '"' {
        match spec_parse_str_rest(s, i + 1) {
            Ok((t, j)) => Ok(j),
            Err(e) => Err(e),
        }
    } else if s[i] == '{' {
        spec_skip_members(s, i + 1, false, (fuel - 1) as nat)
    } else if s[i] == '[' {
        spec_skip_elems(s, i + 1, false, (fuel - 1) as nat)
    } else if lit_at(s, i, "true"@) {
        Ok(i + "true"@.len())
    } else if lit_at(s, i, "false"@) {
        Ok(i + "false"@.len())
    } else if lit_at(s, i, "null"@) {
        Ok(i + "null"@.len())
    } else {
        spec_skip_number(s, i)
    }
}

/// Skips the members of an object being ignored, after its `{`.
pub open spec fn spec_skip_members(s: Seq<char>, i: int, comma: bool, fuel: nat) -> Result<
    int,
    DecodeError,
>
    decreases fuel,
{
    if fuel == 0 {
        Err(DecodeError::Syntax)
    } else {
        let j = spec_skip_ws(s, i);
        if j >= s.len() {
            Err(DecodeError::Syntax)
        } else if s[j] == '}' && !comma {
            Ok(j + 1)
        } else if s[j] == '"' {
            match spec_parse_str_rest(s, j + 1) {
                Ok((name, k)) => {
                    let k2 = spec_skip_ws(s, k);
                    if !(k2 < s.len() && s[k2] == ':') {
                        Err(DecodeError::Syntax)
                    } else {
                        match spec_skip_value(s, spec_skip_ws(s, k2 + 1), (fuel - 1) as nat) {
                            Ok(p) => {
                                let p2 = spec_skip_ws(s, p);
                                if p2 < s.len() && s[p2] == ',' {
                                    spec_skip_members(s, p2 + 1, true, (fuel - 1) as nat)
                                } else if p2 < s.len() && s[p2] == '}' {
                                    Ok(p2 + 1)
                                } else {
                                    Err(DecodeError::Syntax)
                                }
                            },
                            Err(e) => Err(e),
                        }
                    }
                },
                Err(e) => Err(e),
            }
        } else {
            Err(DecodeError::Syntax)
        }
    }
}

/// Skips the elements of an array being ignored, after its `[`.
pub open spec fn spec_skip_elems(s: Seq<char>, i: int, comma: bool, fuel: nat) -> Result<
    int,
    DecodeError,
>
    decreases fuel,
{
    if fuel == 0 {
        Err(DecodeError::Syntax)
    } else {
        let j = spec_skip_ws(s, i);
        if j >= s.len() {
            Err(DecodeError::Syntax)
        } else if s[j] == ']' && !comma {
            Ok(j + 1)
        } else {
            match spec_skip_value(s, j, (fuel - 1) as nat) {
                Ok(p) => {
                    let p2 = spec_skip_ws(s, p);
                    if p2 < s.len() && s[p2] == ',' {
                        spec_skip_elems(s, p2 + 1, true, (fuel - 1) as nat)
                    } else if p2 < s.len() && s[p2] == ']' {
                        Ok(p2 + 1)
                    } else {
                        Err(DecodeError::Syntax)
                    }
                },
                Err(e) => Err(e),
            }
        }
    }
}

// --- The message object's members. ---

/// What has been read of a message object so far: each protocol member at
/// most once.
pub struct SlotsModel {
    pub tag: Option<Seq<char>>,
    pub msg: Option<Seq<char>>,
    pub time: Option<u64>,
    pub app_id: Option<u64>,
    pub service: Option<MusicServiceInfoModel>,
    pub id: Option<u16>,
}

pub open spec fn empty_slots() -> SlotsModel {
    SlotsModel { tag: None, msg: None, time: None, app_id: None, service: None, id: None }
}

/// What has been read of a music-info object so far.
pub struct MusicSlotsModel {
    pub song: Option<Seq<char>>,
    pub artist: Option<Seq<char>>,
    pub paused: Option<bool>,
}

/// Parses one member's value into its slot. A known name takes its field's
/// type; a second occurrence of a known name is a syntax error; an unknown
/// member is skipped.
pub open spec fn spec_member_value(
    s: Seq<char>,
    i: int,
    slots: SlotsModel,
    name: Seq<char>,
    fuel: nat,
) -> Result<(SlotsModel, int), DecodeError> {
    if name == "type"@ {
        if slots.tag is Some {
            Err(DecodeError::Syntax)
        } else {
            match spec_parse_jstring(s, i) {
                Ok((v, j)) => Ok((SlotsModel { tag: Some(v), ..slots }, j)),
                Err(e) => Err(e),
            }
        }
    } else if name == "msg"@ {
        if slots.msg is Some {
            Err(DecodeError::Syntax)
        } else {
            match spec_parse_jstring(s, i) {
                Ok((v, j)) => Ok((SlotsModel { msg: Some(v), ..slots }, j)),
                Err(e) => Err(e),
            }
        }
    } else if name == "time"@ {
        if slots.time is Some {
            Err(DecodeError::Syntax)
        } else {
            match spec_parse_u64(s, i) {
                Ok((v, j)) => Ok((SlotsModel { time: Some(v), ..slots }, j)),
                Err(e) => Err(e),
            }
        }
    } else if name == "appId"@ {
        if slots.app_id is Some {
            Err(DecodeError::Syntax)
        } else {
            match spec_parse_u64(s, i) {
                Ok((v, j)) => Ok((SlotsModel { app_id: Some(v), ..slots }, j)),
                Err(e) => Err(e),
            }
        }
    } else if name == "id"@ {
        if slots.id is Some {
            Err(DecodeError::Syntax)
        } else {
            match spec_parse_u16(s, i) {
                Ok((v, j)) => Ok((SlotsModel { id: Some(v), ..slots }, j)),
                Err(e) => Err(e),
            }
        }
    } else if name == "service"@ {
        if slots.service is Some {
            Err(DecodeError::Syntax)
        } else {
            match spec_parse_service(s, i, fuel) {
                Ok((v, j)) => Ok((SlotsModel { service: Some(v), ..slots }, j)),
                Err(e) => Err(e),
            }
        }
    } else {
        match spec_skip_value(s, i, fuel) {
            Ok(j) => Ok((slots, j)),
            Err(e) => Err(e),
        }
    }
}

/// Parses the message object's members, in any order, after its `{`.
pub open spec fn spec_parse_members(
    s: Seq<char>,
    i: int,
    slots: SlotsModel,
    comma: bool,
    fuel: nat,
) -> Result<(SlotsModel, int), DecodeError>
    decreases fuel,
{
    if fuel == 0 {
        Err(DecodeError::Syntax)
    } else {
        let j = spec_skip_ws(s, i);
        if j >= s.len() {
            Err(DecodeError::Syntax)
        } else if s[j] == '}' && !comma {
            Ok((slots, j + 1))
        } else if s[j] == '"' {
            match spec_parse_str_rest(s, j + 1) {
                Ok((name, k)) => {
                    let k2 = spec_skip_ws(s, k);
                    if !(k2 < s.len() && s[k2] == ':') {
                        Err(DecodeError::Syntax)
                    } else {
                        match spec_member_value(
                            s,
                            spec_skip_ws(s, k2 + 1),
                            slots,
                            name,
                            (fuel - 1) as nat,
                        ) {
                            Ok((slots2, p)) => {
                                let p2 = spec_skip_ws(s, p);
                                if p2 < s.len() && s[p2] == ',' {
                                    spec_parse_members(s, p2 + 1, slots2, true, (fuel - 1) as nat)
                                } else if p2 < s.len() && s[p2] == '}' {
                                    Ok((slots2, p2 + 1))
                                } else {
                                    Err(DecodeError::Syntax)
                                }
                            },
                            Err(e) => Err(e),
                        }
                    }
                },
                Err(e) => Err(e),
            }
        } else {
            Err(DecodeError::Syntax)
        }
    }
}

/// Parses a service value: an object with a single variant member, whose
/// name picks the service.
pub open spec fn spec_parse_service(s: Seq<char>, i: int, fuel: nat) -> Result<
    (MusicServiceInfoModel, int),
    DecodeError,
> {
    if !(0 <= i && i < s.len() && s[i] == '{') {
        Err(DecodeError::TypeMismatch)
    } else {
        let j = spec_skip_ws(s, i + 1);
        if !(j < s.len() && s[j] == '"') {
            Err(DecodeError::Syntax)
        } else {
            match spec_parse_str_rest(s, j + 1) {
                Ok((name, k)) => if name != "youTubeMusic"@ {
                    Err(DecodeError::UnknownTag)
                } else {
                    let k2 = spec_skip_ws(s, k);
                    if !(k2 < s.len() && s[k2] == ':') {
                        Err(DecodeError::Syntax)
                    } else {
                        match spec_parse_music(s, spec_skip_ws(s, k2 + 1), fuel) {
                            Ok((info, p)) => {
                                let p2 = spec_skip_ws(s, p);
                                if p2 < s.len() && s[p2] == '}' {
                                    Ok((info, p2 + 1))
                                } else {
                                    Err(DecodeError::Syntax)
                                }
                            },
                            Err(e) => Err(e),
                        }
                    }
                },
                Err(e) => Err(e),
            }
        }
    }
}

/// Parses one music member's value into its slot.
pub open spec fn spec_music_member_value(
    s: Seq<char>,
    i: int,
    slots: MusicSlotsModel,
    name: Seq<char>,
    fuel: nat,
) -> Result<(MusicSlotsModel, int), DecodeError> {
    if name == "song"@ {
        if slots.song is Some {
            Err(DecodeError::Syntax)
        } else {
            match spec_parse_jstring(s, i) {
                Ok((v, j)) => Ok((MusicSlotsModel { song: Some(v), ..slots }, j)),
                Err(e) => Err(e),
            }
        }
    } else if name == "artist"@ {
        if slots.artist is Some {
            Err(DecodeError::Syntax)
        } else {
            match spec_parse_jstring(s, i) {
                Ok((v, j)) => Ok((MusicSlotsModel { artist: Some(v), ..slots }, j)),
                Err(e) => Err(e),
            }
        }
    } else if name == "paused"@ {
        if slots.paused is Some {
            Err(DecodeError::Syntax)
        } else {
            match spec_parse_bool(s, i) {
                Ok((v, j)) => Ok((MusicSlotsModel { paused: Some(v), ..slots }, j)),
                Err(e) => Err(e),
            }
        }
    } else {
        match spec_skip_value(s, i, fuel) {
            Ok(j) => Ok((slots, j)),
            Err(e) => Err(e),
        }
    }
}

/// Parses the music object's members, in any order, after its `{`.
pub open spec fn spec_parse_music_members(
    s: Seq<char>,
    i: int,
    slots: MusicSlotsModel,
    comma: bool,
    fuel: nat,
) -> Result<(MusicSlotsModel, int), DecodeError>
    decreases fuel,
{
    if fuel == 0 {
        Err(DecodeError::Syntax)
    } else {
        let j = spec_skip_ws(s, i);
        if j >= s.len() {
            Err(DecodeError::Syntax)
        } else if s[j] == '}' && !comma {
            Ok((slots, j + 1))
        } else if s[j] == '"' {
            match spec_parse_str_rest(s, j + 1) {
                Ok((name, k)) => {
                    let k2 = spec_skip_ws(s, k);
                    if !(k2 < s.len() && s[k2] == ':') {
                        Err(DecodeError::Syntax)
                    } else {
                        match spec_music_member_value(
                            s,
                            spec_skip_ws(s, k2 + 1),
                            slots,
                            name,
                            (fuel - 1) as nat,
                        ) {
                            Ok((slots2, p)) => {
                                let p2 = spec_skip_ws(s, p);
                                if p2 < s.len() && s[p2] == ',' {
                                    spec_parse_music_members(
                                        s,
                                        p2 + 1,
                                        slots2,
                                        true,
                                        (fuel - 1) as nat,
                                    )
                                } else if p2 < s.len() && s[p2] == '}' {
                                    Ok((slots2, p2 + 1))
                                } else {
                                    Err(DecodeError::Syntax)
                                }
                            },
                            Err(e) => Err(e),
                        }
                    }
                },
                Err(e) => Err(e),
            }
        } else {
            Err(DecodeError::Syntax)
        }
    }
}

/// Parses a music-info value: its object with all three members present.
pub open spec fn spec_parse_music(s: Seq<char>, i: int, fuel: nat) -> Result<
    (MusicServiceInfoModel, int),
    DecodeError,
> {
    if !(0 <= i && i < s.len() && s[i] == '{') {
        Err(DecodeError::TypeMismatch)
    } else {
        match spec_parse_music_members(
            s,
            i + 1,
            MusicSlotsModel { song: None, artist: None, paused: None },
            false,
            fuel,
        ) {
            Ok((ms, p)) => match (ms.song, ms.artist, ms.paused) {
                (Some(song), Some(artist), Some(paused)) => Ok(
                    (MusicServiceInfoModel { song, artist, paused }, p),
                ),
                _ => Err(DecodeError::MissingField),
            },
            Err(e) => Err(e),
        }
    }
}

/// Assembles the message once the object has been read: the tag picks the
/// form, whose members must all be present; members of other forms are
/// ignored, as the wire format tolerates them.
pub open spec fn spec_assemble(sl: SlotsModel) -> Result<MessageModel, DecodeError> {
    match sl.tag {
        None => Err(DecodeError::MissingField),
        Some(tag) => if tag == "hello"@ {
            match (sl.msg, sl.time, sl.app_id) {
                (Some(msg), Some(time), Some(app_id)) => Ok(
                    MessageModel::Hello { msg, time, app_id },
                ),
                _ => Err(DecodeError::MissingField),
            }
        } else if tag == "update"@ {
            match (sl.service, sl.id) {
                (Some(sv), Some(id)) => Ok(
                    MessageModel::Update { service: ServiceModel::YouTubeMusic(sv), id },
                ),
                _ => Err(DecodeError::MissingField),
            }
        } else if tag == "clear"@ {
            match sl.id {
                Some(id) => Ok(MessageModel::Clear { id }),
                None => Err(DecodeError::MissingField),
            }
        } else if tag == "ack"@ {
            match sl.id {
                Some(id) => Ok(MessageModel::Ack { id }),
                None => Err(DecodeError::MissingField),
            }
        } else {
            Err(DecodeError::UnknownTag)
        },
    }
}

/// What a frame of text means: the message it denotes, or the error that
/// rejects it.
pub open spec fn spec_decode(s: Seq<char>) -> Result<MessageModel, DecodeError> {
    let i0 = spec_skip_ws(s, 0);
    if !(i0 < s.len() && s[i0] == '{') {
        Err(DecodeError::Syntax)
    } else {
        match spec_parse_members(s, i0 + 1, empty_slots(), false, s.len()) {
            Ok((sl, p)) => if spec_skip_ws(s, p) != s.len() {
                Err(DecodeError::Syntax)
            } else {
                spec_assemble(sl)
            },
            Err(e) => Err(e),
        }
    }
}

// ---------------------------------------------------------------------------
// Executable decoder.
// ---------------------------------------------------------------------------

/// Relies on `char::from_u32` of std: `Some` exactly on Unicode scalar
/// values, giving the character with that code point.
pub assume_specification[ char::from_u32 ](i: u32) -> (r: Option<char>)
    ensures
        r matches Some(c) ==> c as u32 == i,
        r is Some <==> is_scalar_value(i as int),
;

/// Relies on `String`'s `From<char>` of std: the string of exactly that
/// character.
#[verifier::external_body]
fn char_to_string(c: char) -> (r: String)
    ensures
        r@ == seq![c],
{
    String::from(c)
}

fn skip_ws(s: &str, n: usize, i: usize) -> (j: usize)
    requires
        n == s@.len(),
        i <= n,
    ensures
        j as int == spec_skip_ws(s@, i as int),
        i <= j <= n,
    decreases n - i,
{
    if i < n {
        let c = s.get_char(i);
        if c == ' ' || c == '\t' || c == '\n' || c == '\r' {
            return skip_ws(s, n, i + 1);
        }
    }
    i
}

/// Checks the literal token `lit` at position `i` and steps past it.
fn expect_lit(s: &str, n: usize, i: usize, lit: &str) -> (r: Option<usize>)
    requires
        n == s@.len(),
    ensures
        match r {
            Some(j) => lit_at(s@, i as int, lit@) && j as int == i + lit@.len() && j <= n,
            None => !lit_at(s@, i as int, lit@),
        },
{
    let ln = lit.unicode_len();
    if i > n || ln > n - i {
        return None;
    }
    let mut k: usize = 0;
    while k < ln
        invariant
            n == s@.len(),
            ln == lit@.len(),
            i + ln <= n,
            k <= ln,
            forall|t: int| 0 <= t < k ==> s@[i + t] == lit@[t],
        decreases ln - k,
    {
        if s.get_char(i + k) != lit.get_char(k) {
            proof {
                assert(!lit_at(s@, i as int, lit@)) by {
                    if lit_at(s@, i as int, lit@) {
                        assert(s@.subrange(i as int, i + lit@.len())[k as int] == lit@[k as int]);
                    }
                }
            }
            return None;
        }
        k += 1;
    }
    proof {
        assert(s@.subrange(i as int, i + lit@.len()) =~= lit@);
    }
    Some(i + ln)
}

fn hex_digit(c: char) -> (r: i64)
    ensures
        r as int == hex_val(c),
        -1 <= r <= 15,
{
    if c == '0' {
        0
    } else if c == '1' {
        1
    } else if c == '2' {
        2
    } else if c == '3' {
        3
    } else if c == '4' {
        4
    } else if c == '5' {
        5
    } else if c == '6' {
        6
    } else if c == '7' {
        7
    } else if c == '8' {
        8
    } else if c == '9' {
        9
    } else if c == 'a' || c == 'A' {
        10
    } else if c == 'b' || c == 'B' {
        11
    } else if c == 'c' || c == 'C' {
        12
    } else if c == 'd' || c == 'D' {
        13
    } else if c == 'e' || c == 'E' {
        14
    } else if c == 'f' || c == 'F' {
        15
    } else {
        -1
    }
}

fn hex4(s: &str, n: usize, i: usize) -> (r: i64)
    requires
        n == s@.len(),
    ensures
        r as int == hex4_at(s@, i as int),
        -1 <= r <= 0xFFFF,
{
    if i > n || n - i < 4 {
        return -1;
    }
    let h0 = hex_digit(s.get_char(i));
    let h1 = hex_digit(s.get_char(i + 1));
    let h2 = hex_digit(s.get_char(i + 2));
    let h3 = hex_digit(s.get_char(i + 3));
    if h0 < 0 || h1 < 0 || h2 < 0 || h3 < 0 {
        return -1;
    }
    h0 * 4096 + h1 * 256 + h2 * 16 + h3
}

/// Reads the remainder of a string value, after the opening quote.
fn parse_str_rest(s: &str, n: usize, i: usize) -> (r: Result<(String, usize), DecodeError>)
    requires
        n == s@.len(),
        i <= n,
    ensures
        match r {
            Ok((t, j)) => spec_parse_str_rest(s@, i as int) == Ok::<_, DecodeError>(
                (t@, j as int),
            ) && j <= n,
            Err(e) => spec_parse_str_rest(s@, i as int) == Err::<(Seq<char>, int), _>(e),
        },
    decreases n - i,
{
    if i >= n {
        return Err(DecodeError::Syntax);
    }
    let c = s.get_char(i);
    if c == '"' {
        let empty = String::new();
        proof {
            assert(empty@ =~= Seq::<char>::empty());
        }
        return Ok((empty, i + 1));
    }
    if c == '\\' {
        if i + 1 >= n {
            return Err(DecodeError::Syntax);
        }
        let c2 = s.get_char(i + 1);
        if c2 == 'u' {
            let v = hex4(s, n, i + 2);
            if v < 0 {
                return Err(DecodeError::Syntax);
            }
            if 0xD800 <= v && v < 0xDC00 {
                if n >= 8 && i <= n - 8 {
                    if s.get_char(i + 6) == '\\' && s.get_char(i + 7) == 'u' {
                        let w = hex4(s, n, i + 8);
                        if 0xDC00 <= w && w < 0xE000 {
                            let vu: u32 = v as u32;
                            let wu: u32 = w as u32;
                            proof {
                                assert(vu as int == v as int);
                                assert(wu as int == w as int);
                            }
                            let cp: u32 = 0x10000 + (vu - 0xD800) * 0x400 + (wu - 0xDC00);
                            let ch = match char::from_u32(cp) {
                                Some(ch) => ch,
                                None => {
                                    proof {
                                        assert(false);
                                    }
                                    return Err(DecodeError::Syntax);
                                },
                            };
                            proof {
                                vstd::utf8::char_u32_cast(ch, cp);
                            }
                            return match parse_str_rest(s, n, i + 12) {
                                Ok((t, j)) => {
                                    let mut outp = char_to_string(ch);
                                    outp.append(t.as_str());
                                    Ok((outp, j))
                                },
                                Err(e) => Err(e),
                            };
                        }
                    }
                }
                return Err(DecodeError::Syntax);
            }
            if 0xDC00 <= v && v < 0xE000 {
                return Err(DecodeError::Syntax);
            }
            let ch = match char::from_u32(v as u32) {
                Some(ch) => ch,
                None => {
                    proof {
                        assert(false);
                    }
                    return Err(DecodeError::Syntax);
                },
            };
            proof {
                vstd::utf8::char_u32_cast(ch, v as u32);
            }
            return match parse_str_rest(s, n, i + 6) {
                Ok((t, j)) => {
                    let mut outp = char_to_string(ch);
                    outp.append(t.as_str());
                    Ok((outp, j))
                },
                Err(e) => Err(e),
            };
        }
        let ch = if c2 == '"' {
            '"'
        } else if c2 == '\\' {
            '\\'
        } else if c2 == '/' {
            '/'
        } else if c2 == 'b' {
            '\u{8}'
        } else if c2 == 'f' {
            '\u{c}'
        } else if c2 == 'n' {
            '\n'
        } else if c2 == 'r' {
            '\r'
        } else if c2 == 't' {
            '\t'
        } else {
            return Err(DecodeError::Syntax);
        };
        return match parse_str_rest(s, n, i + 2) {
            Ok((t, j)) => {
                let mut outp = char_to_string(ch);
                outp.append(t.as_str());
                Ok((outp, j))
            },
            Err(e) => Err(e),
        };
    }
    if (c as u32) < 0x20 {
        return Err(DecodeError::Syntax);
    }
    match parse_str_rest(s, n, i + 1) {
        Ok((t, j)) => {
            let mut outp = s.substring_char(i, i + 1).to_owned();
            outp.append(t.as_str());
            proof {
                assert(s@.subrange(i as int, i + 1) =~= seq![s@[i as int]]);
                assert(outp@ =~= seq![s@[i as int]] + t@);
            }
            Ok((outp, j))
        },
        Err(e) => Err(e),
    }
}

/// Reads a string value, opening quote included.
fn parse_jstring(s: &str, n: usize, i: usize) -> (r: Result<(String, usize), DecodeError>)
    requires
        n == s@.len(),
    ensures
        match r {
            Ok((t, j)) => spec_parse_jstring(s@, i as int) == Ok::<_, DecodeError>(
                (t@, j as int),
            ) && j <= n,
            Err(e) => spec_parse_jstring(s@, i as int) == Err::<(Seq<char>, int), _>(e),
        },
{
    if i < n {
        let c = s.get_char(i);
        if c == '"' {
            return parse_str_rest(s, n, i + 1);
        }
    }
    Err(DecodeError::TypeMismatch)
}

fn char_digit(c: char) -> (r: Option<u64>)
    ensures
        match r {
            Some(d) => is_digit_char(c) && d == digit_val(c) && d < 10,
            None => !is_digit_char(c),
        },
{
    if c == '0' {
        Some(0)
    } else if c == '1' {
        Some(1)
    } else if c == '2' {
        Some(2)
    } else if c == '3' {
        Some(3)
    } else if c == '4' {
        Some(4)
    } else if c == '5' {
        Some(5)
    } else if c == '6' {
        Some(6)
    } else if c == '7' {
        Some(7)
    } else if c == '8' {
        Some(8)
    } else if c == '9' {
        Some(9)
    } else {
        None
    }
}

/// Finds the end of the digit run that starts at `j`.
fn digit_run(s: &str, n: usize, j: usize) -> (e: usize)
    requires
        n == s@.len(),
        j <= n,
    ensures
        j <= e <= n,
        spec_parse_digits(s@, j as int).0 == s@.subrange(j as int, e as int),
        spec_parse_digits(s@, j as int).1 == e as int,
        forall|t: int| j <= t < e ==> is_digit_char(s@[t]),
    decreases n - j,
{
    if j >= n {
        proof {
            assert(s@.subrange(j as int, j as int) =~= Seq::<char>::empty());
        }
        return j;
    }
    let c = s.get_char(j);
    match char_digit(c) {
        None => {
            proof {
                assert(s@.subrange(j as int, j as int) =~= Seq::<char>::empty());
            }
            j
        },
        Some(_) => {
            let e = digit_run(s, n, j + 1);
            proof {
                assert(seq![s@[j as int]] + s@.subrange(j + 1, e as int) =~= s@.subrange(
                    j as int,
                    e as int,
                ));
            }
            e
        },
    }
}

/// A digit run keeps at least its prefix's value.
proof fn lemma_val_prefix_le(d: Seq<char>, e: Seq<char>)
    ensures
        val_of_digits(d) <= val_of_digits(d + e),
    decreases e.len(),
{
    if e.len() == 0 {
        assert(d + e =~= d);
    } else {
        lemma_val_prefix_le(d, e.drop_last());
        assert((d + e).drop_last() =~= d + e.drop_last());
        assert((d + e).last() == e.last());
    }
}

/// Reads an unsigned integer member.
fn parse_u64(s: &str, n: usize, i: usize) -> (r: Result<(u64, usize), DecodeError>)
    requires
        n == s@.len(),
        i <= n,
    ensures
        match r {
            Ok((v, j)) => spec_parse_u64(s@, i as int) == Ok::<_, DecodeError>(
                (v, j as int),
            ) && j <= n,
            Err(e) => spec_parse_u64(s@, i as int) == Err::<(u64, int), _>(e),
        },
{
    let e = digit_run(s, n, i);
    if e == i {
        return Err(DecodeError::TypeMismatch);
    }
    if e - i > 1 {
        if s.get_char(i) == '0' {
            proof {
                assert(s@.subrange(i as int, e as int)[0] == s@[i as int]);
            }
            return Err(DecodeError::TypeMismatch);
        }
    }
    proof {
        assert(s@.subrange(i as int, e as int)[0] == s@[i as int]);
    }
    if e < n {
        let t = s.get_char(e);
        if t == '.' || t == 'e' || t == 'E' {
            return Err(DecodeError::TypeMismatch);
        }
    }
    let mut acc: u128 = 0;
    let mut k: usize = i;
    while k < e
        invariant
            n == s@.len(),
            i <= k <= e <= n,
            spec_parse_digits(s@, i as int).0 == s@.subrange(i as int, e as int),
            spec_parse_digits(s@, i as int).1 == e as int,
            forall|t: int| i <= t < e ==> is_digit_char(s@[t]),
            acc == val_of_digits(s@.subrange(i as int, k as int)),
            acc <= u64::MAX as u128,
        decreases e - k,
    {
        let c = s.get_char(k);
        let dv: u64 = match char_digit(c) {
            Some(d) => d,
            None => {
                proof {
                    assert(false);
                }
                return Err(DecodeError::TypeMismatch);
            },
        };
        let acc2: u128 = acc * 10 + (dv as u128);
        proof {
            assert(s@.subrange(i as int, k + 1).drop_last() =~= s@.subrange(i as int, k as int));
            assert(s@.subrange(i as int, k + 1).last() == s@[k as int]);
        }
        if acc2 > u64::MAX as u128 {
            proof {
                lemma_val_prefix_le(s@.subrange(i as int, k + 1), s@.subrange(k + 1, e as int));
                assert(s@.subrange(i as int, k + 1) + s@.subrange(k + 1, e as int) =~= s@.subrange(
                    i as int,
                    e as int,
                ));
            }
            return Err(DecodeError::TypeMismatch);
        }
        acc = acc2;
        k += 1;
    }
    proof {
        assert(s@.subrange(i as int, e as int).len() == e - i);
    }
    Ok((acc as u64, e))
}

/// Reads a request id, `0 ..= 65535`.
fn parse_u16(s: &str, n: usize, i: usize) -> (r: Result<(u16, usize), DecodeError>)
    requires
        n == s@.len(),
        i <= n,
    ensures
        match r {
            Ok((v, j)) => spec_parse_u16(s@, i as int) == Ok::<_, DecodeError>(
                (v, j as int),
            ) && j <= n,
            Err(e) => spec_parse_u16(s@, i as int) == Err::<(u16, int), _>(e),
        },
{
    match parse_u64(s, n, i) {
        Ok((v, j)) => if v > 65535 {
            Err(DecodeError::TypeMismatch)
        } else {
            Ok((v as u16, j))
        },
        Err(e) => Err(e),
    }
}

fn parse_bool(s: &str, n: usize, i: usize) -> (r: Result<(bool, usize), DecodeError>)
    requires
        n == s@.len(),
    ensures
        match r {
            Ok((v, j)) => spec_parse_bool(s@, i as int) == Ok::<_, DecodeError>(
                (v, j as int),
            ) && j <= n,
            Err(e) => spec_parse_bool(s@, i as int) == Err::<(bool, int), _>(e),
        },
{
    if let Some(j) = expect_lit(s, n, i, "true") {
        Ok((true, j))
    } else if let Some(j) = expect_lit(s, n, i, "false") {
        Ok((false, j))
    } else {
        Err(DecodeError::TypeMismatch)
    }
}

/// Skips one number being ignored.
fn skip_number(s: &str, n: usize, i: usize) -> (r: Result<usize, DecodeError>)
    requires
        n == s@.len(),
        i <= n,
    ensures
        match r {
            Ok(j) => spec_skip_number(s@, i as int) == Ok::<int, DecodeError>(j as int) && j <= n,
            Err(e) => spec_skip_number(s@, i as int) == Err::<int, _>(e),
        },
{
    let mut i1 = i;
    if i < n {
        if s.get_char(i) == '-' {
            i1 = i + 1;
        }
    }
    let e = digit_run(s, n, i1);
    if e == i1 {
        return Err(DecodeError::Syntax);
    }
    let e2 = match skip_frac(s, n, e) {
        Ok(j) => j,
        Err(er) => {
            return Err(er);
        },
    };
    skip_exp(s, n, e2)
}

fn skip_frac(s: &str, n: usize, i: usize) -> (r: Result<usize, DecodeError>)
    requires
        n == s@.len(),
        i <= n,
    ensures
        match r {
            Ok(j) => spec_skip_frac(s@, i as int) == Ok::<int, DecodeError>(j as int) && j <= n,
            Err(e) => spec_skip_frac(s@, i as int) == Err::<int, _>(e),
        },
{
    if i < n {
        if s.get_char(i) == '.' {
            let e = digit_run(s, n, i + 1);
            if e == i + 1 {
                return Err(DecodeError::Syntax);
            }
            return Ok(e);
        }
    }
    Ok(i)
}

fn skip_exp(s: &str, n: usize, i: usize) -> (r: Result<usize, DecodeError>)
    requires
        n == s@.len(),
        i <= n,
    ensures
        match r {
            Ok(j) => spec_skip_exp(s@, i as int) == Ok::<int, DecodeError>(j as int) && j <= n,
            Err(e) => spec_skip_exp(s@, i as int) == Err::<int, _>(e),
        },
{
    if i < n {
        let c = s.get_char(i);
        if c == 'e' || c == 'E' {
            let mut i1 = i + 1;
            if i + 1 < n {
                let c2 = s.get_char(i + 1);
                if c2 == '+' || c2 == '-' {
                    i1 = i + 2;
                }
            }
            let e = digit_run(s, n, i1);
            if e == i1 {
                return Err(DecodeError::Syntax);
            }
            return Ok(e);
        }
    }
    Ok(i)
}

/// Skips one value of an ignored member.
fn skip_value(s: &str, n: usize, i: usize, fuel: usize) -> (r: Result<usize, DecodeError>)
    requires
        n == s@.len(),
        i <= n,
    ensures
        match r {
            Ok(j) => spec_skip_value(s@, i as int, fuel as nat) == Ok::<int, DecodeError>(
                j as int,
            ) && j <= n,
            Err(e) => spec_skip_value(s@, i as int, fuel as nat) == Err::<int, _>(e),
        },
    decreases fuel,
{
    if fuel == 0 || i >= n {
        return Err(DecodeError::Syntax);
    }
    let c = s.get_char(i);
    if c == '"' {
        return match parse_str_rest(s, n, i + 1) {
            Ok((_t, j)) => Ok(j),
            Err(e) => Err(e),
        };
    }
    if c == '{' {
        return skip_members(s, n, i + 1, false, fuel - 1);
    }
    if c == '[' {
        return skip_elems(s, n, i + 1, false, fuel - 1);
    }
    if let Some(j) = expect_lit(s, n, i, "true") {
        return Ok(j);
    }
    if let Some(j) = expect_lit(s, n, i, "false") {
        return Ok(j);
    }
    if let Some(j) = expect_lit(s, n, i, "null") {
        return Ok(j);
    }
    skip_number(s, n, i)
}

fn skip_members(s: &str, n: usize, i: usize, comma: bool, fuel: usize) -> (r: Result<
    usize,
    DecodeError,
>)
    requires
        n == s@.len(),
        i <= n,
    ensures
        match r {
            Ok(j) => spec_skip_members(s@, i as int, comma, fuel as nat) == Ok::<int, DecodeError>(
                j as int,
            ) && j <= n,
            Err(e) => spec_skip_members(s@, i as int, comma, fuel as nat) == Err::<int, _>(e),
        },
    decreases fuel,
{
    if fuel == 0 {
        return Err(DecodeError::Syntax);
    }
    let j = skip_ws(s, n, i);
    if j >= n {
        return Err(DecodeError::Syntax);
    }
    let c = s.get_char(j);
    if c == '}' && !comma {
        return Ok(j + 1);
    }
    if c != '"' {
        return Err(DecodeError::Syntax);
    }
    let (_name, k) = match parse_str_rest(s, n, j + 1) {
        Ok(p) => p,
        Err(e) => {
            return Err(e);
        },
    };
    let k2 = skip_ws(s, n, k);
    if !(k2 < n) {
        return Err(DecodeError::Syntax);
    }
    if s.get_char(k2) != ':' {
        return Err(DecodeError::Syntax);
    }
    let k3 = skip_ws(s, n, k2 + 1);
    let p = match skip_value(s, n, k3, fuel - 1) {
        Ok(p) => p,
        Err(e) => {
            return Err(e);
        },
    };
    let p2 = skip_ws(s, n, p);
    if p2 < n {
        let c2 = s.get_char(p2);
        if c2 == ',' {
            return skip_members(s, n, p2 + 1, true, fuel - 1);
        }
        if c2 == '}' {
            return Ok(p2 + 1);
        }
    }
    Err(DecodeError::Syntax)
}

fn skip_elems(s: &str, n: usize, i: usize, comma: bool, fuel: usize) -> (r: Result<
    usize,
    DecodeError,
>)
    requires
        n == s@.len(),
        i <= n,
    ensures
        match r {
            Ok(j) => spec_skip_elems(s@, i as int, comma, fuel as nat) == Ok::<int, DecodeError>(
                j as int,
            ) && j <= n,
            Err(e) => spec_skip_elems(s@, i as int, comma, fuel as nat) == Err::<int, _>(e),
        },
    decreases fuel,
{
    if fuel == 0 {
        return Err(DecodeError::Syntax);
    }
    let j = skip_ws(s, n, i);
    if j >= n {
        return Err(DecodeError::Syntax);
    }
    if s.get_char(j) == ']' && !comma {
        return Ok(j + 1);
    }
    let p = match skip_value(s, n, j, fuel - 1) {
        Ok(p) => p,
        Err(e) => {
            return Err(e);
        },
    };
    let p2 = skip_ws(s, n, p);
    if p2 < n {
        let c2 = s.get_char(p2);
        if c2 == ',' {
            return skip_elems(s, n, p2 + 1, true, fuel - 1);
        }
        if c2 == ']' {
            return Ok(p2 + 1);
        }
    }
    Err(DecodeError::Syntax)
}

/// The members read so far of the message object.
struct Slots {
    tag: Option<String>,
    msg: Option<String>,
    time: Option<u64>,
    app_id: Option<u64>,
    service: Option<MusicServiceInfo>,
    id: Option<u16>,
}

impl View for Slots {
    type V = SlotsModel;

    closed spec fn view(&self) -> SlotsModel {
        SlotsModel {
            tag: match &self.tag {
                Some(t) => Some(t@),
                None => None,
            },
            msg: match &self.msg {
                Some(t) => Some(t@),
                None => None,
            },
            time: self.time,
            app_id: self.app_id,
            service: match &self.service {
                Some(v) => Some(v@),
                None => None,
            },
            id: self.id,
        }
    }
}

/// The members read so far of a music-info object.
struct MusicSlots {
    song: Option<String>,
    artist: Option<String>,
    paused: Option<bool>,
}

impl View for MusicSlots {
    type V = MusicSlotsModel;

    closed spec fn view(&self) -> MusicSlotsModel {
        MusicSlotsModel {
            song: match &self.song {
                Some(t) => Some(t@),
                None => None,
            },
            artist: match &self.artist {
                Some(t) => Some(t@),
                None => None,
            },
            paused: self.paused,
        }
    }
}

/// Reads one member's value into its slot.
fn member_value(s: &str, n: usize, i: usize, slots: Slots, name: &String, fuel: usize) -> (r:
    Result<(Slots, usize), DecodeError>)
    requires
        n == s@.len(),
        i <= n,
    ensures
        match r {
            Ok((sl, j)) => spec_member_value(s@, i as int, slots@, name@, fuel as nat)
                == Ok::<_, DecodeError>((sl@, j as int)) && j <= n,
            Err(e) => spec_member_value(s@, i as int, slots@, name@, fuel as nat)
                == Err::<(SlotsModel, int), _>(e),
        },
{
    let tn: String = "type".to_owned();
    let mn: String = "msg".to_owned();
    let tin: String = "time".to_owned();
    let an: String = "appId".to_owned();
    let idn: String = "id".to_owned();
    let sn: String = "service".to_owned();
    if *name == tn {
        if slots.tag.is_some() {
            return Err(DecodeError::Syntax);
        }
        match parse_jstring(s, n, i) {
            Ok((v, j)) => Ok((Slots { tag: Some(v), ..slots }, j)),
            Err(e) => Err(e),
        }
    } else if *name == mn {
        if slots.msg.is_some() {
            return Err(DecodeError::Syntax);
        }
        match parse_jstring(s, n, i) {
            Ok((v, j)) => Ok((Slots { msg: Some(v), ..slots }, j)),
            Err(e) => Err(e),
        }
    } else if *name == tin {
        if slots.time.is_some() {
            return Err(DecodeError::Syntax);
        }
        match parse_u64(s, n, i) {
            Ok((v, j)) => Ok((Slots { time: Some(v), ..slots }, j)),
            Err(e) => Err(e),
        }
    } else if *name == an {
        if slots.app_id.is_some() {
            return Err(DecodeError::Syntax);
        }
        match parse_u64(s, n, i) {
            Ok((v, j)) => Ok((Slots { app_id: Some(v), ..slots }, j)),
            Err(e) => Err(e),
        }
    } else if *name == idn {
        if slots.id.is_some() {
            return Err(DecodeError::Syntax);
        }
        match parse_u16(s, n, i) {
            Ok((v, j)) => Ok((Slots { id: Some(v), ..slots }, j)),
            Err(e) => Err(e),
        }
    } else if *name == sn {
        if slots.service.is_some() {
            return Err(DecodeError::Syntax);
        }
        match parse_service(s, n, i, fuel) {
            Ok((v, j)) => Ok((Slots { service: Some(v), ..slots }, j)),
            Err(e) => Err(e),
        }
    } else {
        match skip_value(s, n, i, fuel) {
            Ok(j) => Ok((slots, j)),
            Err(e) => Err(e),
        }
    }
}

/// Reads the message object's members, after its `{`.
fn parse_members(s: &str, n: usize, i: usize, slots: Slots, comma: bool, fuel: usize) -> (r: Result<
    (Slots, usize),
    DecodeError,
>)
    requires
        n == s@.len(),
        i <= n,
    ensures
        match r {
            Ok((sl, j)) => spec_parse_members(s@, i as int, slots@, comma, fuel as nat)
                == Ok::<_, DecodeError>((sl@, j as int)) && j <= n,
            Err(e) => spec_parse_members(s@, i as int, slots@, comma, fuel as nat)
                == Err::<(SlotsModel, int), _>(e),
        },
    decreases fuel,
{
    if fuel == 0 {
        return Err(DecodeError::Syntax);
    }
    let j = skip_ws(s, n, i);
    if j >= n {
        return Err(DecodeError::Syntax);
    }
    let c = s.get_char(j);
    if c == '}' && !comma {
        return Ok((slots, j + 1));
    }
    if c != '"' {
        return Err(DecodeError::Syntax);
    }
    let (name, k) = match parse_str_rest(s, n, j + 1) {
        Ok(p) => p,
        Err(e) => {
            return Err(e);
        },
    };
    let k2 = skip_ws(s, n, k);
    if !(k2 < n) {
        return Err(DecodeError::Syntax);
    }
    if s.get_char(k2) != ':' {
        return Err(DecodeError::Syntax);
    }
    let k3 = skip_ws(s, n, k2 + 1);
    let (slots2, p) = match member_value(s, n, k3, slots, &name, fuel - 1) {
        Ok(p) => p,
        Err(e) => {
            return Err(e);
        },
    };
    let p2 = skip_ws(s, n, p);
    if p2 < n {
        let c2 = s.get_char(p2);
        if c2 == ',' {
            return parse_members(s, n, p2 + 1, slots2, true, fuel - 1);
        }
        if c2 == '}' {
            return Ok((slots2, p2 + 1));
        }
    }
    Err(DecodeError::Syntax)
}

/// Reads a service value.
fn parse_service(s: &str, n: usize, i: usize, fuel: usize) -> (r: Result<
    (MusicServiceInfo, usize),
    DecodeError,
>)
    requires
        n == s@.len(),
        i <= n,
    ensures
        match r {
            Ok((v, j)) => spec_parse_service(s@, i as int, fuel as nat) == Ok::<_, DecodeError>(
                (v@, j as int),
            ) && j <= n,
            Err(e) => spec_parse_service(s@, i as int, fuel as nat) == Err::<
                (MusicServiceInfoModel, int),
                _,
            >(e),
        },
{
    if !(i < n) {
        return Err(DecodeError::TypeMismatch);
    }
    if s.get_char(i) != '{' {
        return Err(DecodeError::TypeMismatch);
    }
    let j = skip_ws(s, n, i + 1);
    if !(j < n) {
        return Err(DecodeError::Syntax);
    }
    if s.get_char(j) != '"' {
        return Err(DecodeError::Syntax);
    }
    let (name, k) = match parse_str_rest(s, n, j + 1) {
        Ok(p) => p,
        Err(e) => {
            return Err(e);
        },
    };
    let vn: String = "youTubeMusic".to_owned();
    if !(name == vn) {
        return Err(DecodeError::UnknownTag);
    }
    let k2 = skip_ws(s, n, k);
    if !(k2 < n) {
        return Err(DecodeError::Syntax);
    }
    if s.get_char(k2) != ':' {
        return Err(DecodeError::Syntax);
    }
    let k3 = skip_ws(s, n, k2 + 1);
    let (info, p) = match parse_music(s, n, k3, fuel) {
        Ok(p) => p,
        Err(e) => {
            return Err(e);
        },
    };
    let p2 = skip_ws(s, n, p);
    if p2 < n {
        if s.get_char(p2) == '}' {
            return Ok((info, p2 + 1));
        }
    }
    Err(DecodeError::Syntax)
}

/// Reads one music member's value into its slot.
fn music_member_value(
    s: &str,
    n: usize,
    i: usize,
    slots: MusicSlots,
    name: &String,
    fuel: usize,
) -> (r: Result<(MusicSlots, usize), DecodeError>)
    requires
        n == s@.len(),
        i <= n,
    ensures
        match r {
            Ok((sl, j)) => spec_music_member_value(
                s@,
                i as int,
                slots@,
                name@,
                fuel as nat,
            ) == Ok::<_, DecodeError>((sl@, j as int)) && j <= n,
            Err(e) => spec_music_member_value(s@, i as int, slots@, name@, fuel as nat)
                == Err::<(MusicSlotsModel, int), _>(e),
        },
{
    let son: String = "song".to_owned();
    let arn: String = "artist".to_owned();
    let pn: String = "paused".to_owned();
    if *name == son {
        if slots.song.is_some() {
            return Err(DecodeError::Syntax);
        }
        match parse_jstring(s, n, i) {
            Ok((v, j)) => Ok((MusicSlots { song: Some(v), ..slots }, j)),
            Err(e) => Err(e),
        }
    } else if *name == arn {
        if slots.artist.is_some() {
            return Err(DecodeError::Syntax);
        }
        match parse_jstring(s, n, i) {
            Ok((v, j)) => Ok((MusicSlots { artist: Some(v), ..slots }, j)),
            Err(e) => Err(e),
        }
    } else if *name == pn {
        if slots.paused.is_some() {
            return Err(DecodeError::Syntax);
        }
        match parse_bool(s, n, i) {
            Ok((v, j)) => Ok((MusicSlots { paused: Some(v), ..slots }, j)),
            Err(e) => Err(e),
        }
    } else {
        match skip_value(s, n, i, fuel) {
            Ok(j) => Ok((slots, j)),
            Err(e) => Err(e),
        }
    }
}

/// Reads the music object's members, after its `{`.
fn parse_music_members(
    s: &str,
    n: usize,
    i: usize,
    slots: MusicSlots,
    comma: bool,
    fuel: usize,
) -> (r: Result<(MusicSlots, usize), DecodeError>)
    requires
        n == s@.len(),
        i <= n,
    ensures
        match r {
            Ok((sl, j)) => spec_parse_music_members(
                s@,
                i as int,
                slots@,
                comma,
                fuel as nat,
            ) == Ok::<_, DecodeError>((sl@, j as int)) && j <= n,
            Err(e) => spec_parse_music_members(s@, i as int, slots@, comma, fuel as nat)
                == Err::<(MusicSlotsModel, int), _>(e),
        },
    decreases fuel,
{
    if fuel == 0 {
        return Err(DecodeError::Syntax);
    }
    let j = skip_ws(s, n, i);
    if j >= n {
        return Err(DecodeError::Syntax);
    }
    let c = s.get_char(j);
    if c == '}' && !comma {
        return Ok((slots, j + 1));
    }
    if c != '"' {
        return Err(DecodeError::Syntax);
    }
    let (name, k) = match parse_str_rest(s, n, j + 1) {
        Ok(p) => p,
        Err(e) => {
            return Err(e);
        },
    };
    let k2 = skip_ws(s, n, k);
    if !(k2 < n) {
        return Err(DecodeError::Syntax);
    }
    if s.get_char(k2) != ':' {
        return Err(DecodeError::Syntax);
    }
    let k3 = skip_ws(s, n, k2 + 1);
    let (slots2, p) = match music_member_value(s, n, k3, slots, &name, fuel - 1) {
        Ok(p) => p,
        Err(e) => {
            return Err(e);
        },
    };
    let p2 = skip_ws(s, n, p);
    if p2 < n {
        let c2 = s.get_char(p2);
        if c2 == ',' {
            return parse_music_members(s, n, p2 + 1, slots2, true, fuel - 1);
        }
        if c2 == '}' {
            return Ok((slots2, p2 + 1));
        }
    }
    Err(DecodeError::Syntax)
}

/// Reads a music-info value.
fn parse_music(s: &str, n: usize, i: usize, fuel: usize) -> (r: Result<
    (MusicServiceInfo, usize),
    DecodeError,
>)
    requires
        n == s@.len(),
        i <= n,
    ensures
        match r {
            Ok((v, j)) => spec_parse_music(s@, i as int, fuel as nat) == Ok::<_, DecodeError>(
                (v@, j as int),
            ) && j <= n,
            Err(e) => spec_parse_music(s@, i as int, fuel as nat) == Err::<
                (MusicServiceInfoModel, int),
                _,
            >(e),
        },
{
    if !(i < n) {
        return Err(DecodeError::TypeMismatch);
    }
    if s.get_char(i) != '{' {
        return Err(DecodeError::TypeMismatch);
    }
    let start = MusicSlots { song: None, artist: None, paused: None };
    match parse_music_members(s, n, i + 1, start, false, fuel) {
        Ok((ms, p)) => match (ms.song, ms.artist, ms.paused) {
            (Some(song), Some(artist), Some(paused)) => Ok(
                (MusicServiceInfo { song, artist, paused }, p),
            ),
            _ => Err(DecodeError::MissingField),
        },
        Err(e) => Err(e),
    }
}

/// Assembles the message once the object is read.
fn assemble(slots: Slots) -> (r: Result<Message, DecodeError>)
    ensures
        match r {
            Ok(m) => spec_assemble(slots@) == Ok::<_, DecodeError>(m@),
            Err(e) => spec_assemble(slots@) == Err::<MessageModel, _>(e),
        },
{
    let tag = match slots.tag {
        Some(t) => t,
        None => {
            return Err(DecodeError::MissingField);
        },
    };
    let hl: String = "hello".to_owned();
    let up: String = "update".to_owned();
    let cl: String = "clear".to_owned();
    let ak: String = "ack".to_owned();
    if tag == hl {
        match (slots.msg, slots.time, slots.app_id) {
            (Some(msg), Some(time), Some(app_id)) => Ok(Message::Hello { msg, time, app_id }),
            _ => Err(DecodeError::MissingField),
        }
    } else if tag == up {
        match (slots.service, slots.id) {
            (Some(sv), Some(id)) => Ok(Message::Update { service: Service::YouTubeMusic(sv), id }),
            _ => Err(DecodeError::MissingField),
        }
    } else if tag == cl {
        match slots.id {
            Some(id) => Ok(Message::Clear { id }),
            None => Err(DecodeError::MissingField),
        }
    } else if tag == ak {
        match slots.id {
            Some(id) => Ok(Message::Ack { id }),
            None => Err(DecodeError::MissingField),
        }
    } else {
        Err(DecodeError::UnknownTag)
    }
}

/// Decodes one frame of text.
///
/// The result is exactly what [`spec_decode`] gives on the frame's
/// characters: the message it denotes, or the error that rejects it.
pub fn decode(s: &str) -> (r: Result<Message, DecodeError>)
    ensures
        match r {
            Ok(m) => spec_decode(s@) == Ok::<_, DecodeError>(m@),
            Err(e) => spec_decode(s@) == Err::<MessageModel, _>(e),
        },
{
    let n = s.unicode_len();
    let i0 = skip_ws(s, n, 0);
    if i0 >= n {
        return Err(DecodeError::Syntax);
    }
    if s.get_char(i0) != '{' {
        return Err(DecodeError::Syntax);
    }
    let start = Slots { tag: None, msg: None, time: None, app_id: None, service: None, id: None };
    match parse_members(s, n, i0 + 1, start, false, n) {
        Ok((slots, p)) => {
            let p2 = skip_ws(s, n, p);
            if p2 != n {
                return Err(DecodeError::Syntax);
            }
            assemble(slots)
        },
        Err(e) => Err(e),
    }
}

// ---------------------------------------------------------------------------
// Round trip: decoding an encoded message gives the message back.
// ---------------------------------------------------------------------------

proof fn lemma_escape_first(s: Seq<char>)
    requires
        s.len() > 0,
    ensures
        spec_escape(s) == esc_char(s[0]) + spec_escape(s.subrange(1, s.len() as int)),
    decreases s.len(),
{
    if s.len() == 1 {
        assert(s.drop_last() =~= Seq::<char>::empty());
        assert(s.subrange(1, 1) =~= Seq::<char>::empty());
        assert(spec_escape(s) =~= esc_char(s[0]) + spec_escape(s.subrange(1, 1)));
    } else {
        let d = s.drop_last();
        lemma_escape_first(d);
        let t = s.subrange(1, s.len() as int);
        assert(t.drop_last() =~= d.subrange(1, d.len() as int));
        assert(t.last() == s.last());
        assert(d[0] == s[0]);
        assert(spec_escape(s) == spec_escape(d) + esc_char(s.last()));
        assert(spec_escape(t) == spec_escape(t.drop_last()) + esc_char(t.last()));
        assert(esc_char(s[0]) + spec_escape(t) =~= (esc_char(d[0]) + spec_escape(
            d.subrange(1, d.len() as int),
        )) + esc_char(s.last()));
    }
}

proof fn lemma_hex_char_val(d: int)
    requires
        0 <= d < 16,
    ensures
        hex_val(hex_char(d)) == d,
{
}

/// Parsing a string body that stands escaped in `ctx`, closing quote behind
/// it, gives the body back.
#[verifier::rlimit(100)]
proof fn lemma_parse_encoded_str(body: Seq<char>, ctx: Seq<char>, i: int)
    requires
        0 <= i,
        i + spec_escape(body).len() + 1 <= ctx.len(),
        ctx.subrange(i, i + spec_escape(body).len() + 1) == spec_escape(body) + seq!['"'],
    ensures
        spec_parse_str_rest(ctx, i) == Ok::<_, DecodeError>(
            (body, i + spec_escape(body).len() + 1),
        ),
    decreases body.len(),
{
    let eb = spec_escape(body);
    if body.len() == 0 {
        assert(ctx.subrange(i, i + 1)[0] == ctx[i]);
        assert(ctx[i] == '"');
        assert(body =~= Seq::<char>::empty());
    } else {
        let c = body[0];
        let rest = body.subrange(1, body.len() as int);
        lemma_escape_first(body);
        let k = esc_char(c).len() as int;
        let er = spec_escape(rest);
        assert(eb.len() == k + er.len());
        assert forall|t: int| 0 <= t < k implies ctx[i + t] == esc_char(c)[t] by {
            assert(ctx.subrange(i, i + eb.len() + 1)[t] == (eb + seq!['"'])[t]);
        }
        assert(ctx.subrange(i + k, i + eb.len() + 1) =~= er + seq!['"']) by {
            assert forall|t: int| 0 <= t < er.len() + 1 implies ctx.subrange(
                i + k,
                i + eb.len() + 1,
            )[t] == (er + seq!['"'])[t] by {
                assert(ctx.subrange(i, i + eb.len() + 1)[k + t] == (eb + seq!['"'])[k + t]);
                assert(ctx.subrange(i + k, i + eb.len() + 1)[t] == ctx[i + k + t]);
            }
        }
        lemma_parse_encoded_str(rest, ctx, i + k);
        if c == '"' || c == '\\' {
            assert(ctx[i] == '\\' && ctx[i + 1] == c);
            assert(seq![c] + rest =~= body);
        } else if c == '\u{8}' || c == '\u{c}' || c == '\n' || c == '\r' || c == '\t' {
            assert(ctx[i] == '\\');
            assert(esc_unescape(ctx[i + 1]) == Some(c));
            assert(seq![c] + rest =~= body);
        } else if (c as u32) < 0x20 {
            let v = (c as u32) as int;
            assert(ctx[i] == '\\' && ctx[i + 1] == 'u');
            assert(ctx[i + 2] == '0' && ctx[i + 3] == '0');
            assert(ctx[i + 4] == hex_char(v / 16) && ctx[i + 5] == hex_char(v % 16));
            lemma_hex_char_val(v / 16);
            lemma_hex_char_val(v % 16);
            assert(hex4_at(ctx, i + 2) == v) by {
                assert(i + 6 <= ctx.len());
                assert(hex_val(ctx[i + 2]) == 0 && hex_val(ctx[i + 3]) == 0);
                assert(hex_val(ctx[i + 4]) == v / 16 && hex_val(ctx[i + 5]) == v % 16);
                assert((v / 16) * 16 + v % 16 == v);
            }
            vstd::utf8::char_u32_cast(c, c as u32);
            assert(seq![c] + rest =~= body);
        } else {
            assert(ctx[i + 0] == esc_char(c)[0]);
            assert(ctx[i] == c);
            assert(seq![ctx[i]] + rest =~= body);
        }
    }
}

/// A string of plain characters is its own escaped body.
proof fn lemma_escape_id(s: Seq<char>)
    requires
        forall|k: int|
            0 <= k < s.len() ==> (#[trigger] s[k]) != '"' && s[k] != '\\' && (s[k] as u32) >= 0x20,
    ensures
        spec_escape(s) == s,
    decreases s.len(),
{
    if s.len() == 0 {
        assert(spec_escape(s) =~= s);
    } else {
        lemma_escape_id(s.drop_last());
        assert(esc_char(s.last()) == seq![s.last()]);
        assert(spec_escape(s) =~= s);
    }
}

/// A part of a concatenation is its own subrange of the whole.
proof fn lemma_take_part(ctx: Seq<char>, pre: Seq<char>, part: Seq<char>, post: Seq<char>)
    requires
        ctx == pre + part + post,
    ensures
        ctx.subrange(pre.len() as int, (pre.len() + part.len()) as int) == part,
        lit_at(ctx, pre.len() as int, part),
        forall|t: int| 0 <= t < part.len() ==> ctx[pre.len() + t] == part[t],
        forall|t: int|
            pre.len() <= t < pre.len() + part.len() ==> (#[trigger] ctx[t]) == part[
                t - pre.len() as int
            ],
{
    assert(ctx.subrange(pre.len() as int, (pre.len() + part.len()) as int) =~= part);
    assert forall|t: int| 0 <= t < part.len() implies ctx[pre.len() + t] == part[t] by {
        assert(ctx.subrange(pre.len() as int, (pre.len() + part.len()) as int)[t] == ctx[
            pre.len() + t
        ]);
    }
    assert forall|t: int|
        pre.len() <= t < pre.len() + part.len() implies (#[trigger] ctx[t]) == part[
        t - pre.len() as int
    ] by {
        assert(ctx[pre.len() + (t - pre.len() as int)] == part[t - pre.len() as int]);
    }
}

proof fn lemma_not_lit(ctx: Seq<char>, i: int, lit: Seq<char>, c: char)
    requires
        0 <= i < ctx.len(),
        ctx[i] == c,
        lit.len() > 0,
        lit[0] != c,
    ensures
        !lit_at(ctx, i, lit),
{
    if lit_at(ctx, i, lit) {
        assert(ctx.subrange(i, i + lit.len())[0] == ctx[i]);
    }
}

/// A plain member name with its closing quote parses back to the name.
proof fn lemma_parse_plain_at(body: Seq<char>, ctx: Seq<char>, pre: Seq<char>, post: Seq<char>)
    requires
        ctx == pre + (body + seq!['"']) + post,
        forall|k: int|
            0 <= k < body.len() ==> (#[trigger] body[k]) != '"' && body[k] != '\\' && (body[k]
                as u32) >= 0x20,
    ensures
        spec_parse_str_rest(ctx, pre.len() as int) == Ok::<_, DecodeError>(
            (body, pre.len() + body.len() + 1 as int),
        ),
{
    lemma_escape_id(body);
    lemma_take_part(ctx, pre, body + seq!['"'], post);
    assert(ctx.subrange(
        pre.len() as int,
        pre.len() + spec_escape(body).len() + 1 as int,
    ) == spec_escape(body) + seq!['"']);
    lemma_parse_encoded_str(body, ctx, pre.len() as int);
}

/// A quoted, escaped string value part of `ctx` parses back to its body.
proof fn lemma_parse_jstring_at(body: Seq<char>, ctx: Seq<char>, pre: Seq<char>, post: Seq<char>)
    requires
        ctx == pre + spec_encode_string(body) + post,
    ensures
        spec_parse_jstring(ctx, pre.len() as int) == Ok::<_, DecodeError>(
            (body, pre.len() as int + spec_encode_string(body).len() as int),
        ),
{
    let ss = spec_encode_string(body);
    let es = spec_escape(body);
    lemma_take_part(ctx, pre, ss, post);
    assert(ss[0] == '"') by {
        assert(ss == seq!['"'] + es + seq!['"']);
    }
    assert(ctx[pre.len() as int] == '"');
    assert(ctx =~= (pre + seq!['"']) + (es + seq!['"']) + post);
    lemma_take_part(ctx, pre + seq!['"'], es + seq!['"'], post);
    lemma_parse_encoded_str(body, ctx, pre.len() as int + 1);
    assert(pre.len() + 1 + es.len() + 1 == pre.len() + ss.len());
}

/// A number's decimal form never starts with a superfluous zero.
proof fn lemma_enc_nat_no_leading_zero(n: nat)
    ensures
        spec_encode_nat(n).len() > 1 ==> spec_encode_nat(n)[0] != '0',
    decreases n,
{
    if n < 10 {
    } else {
        lemma_enc_nat_no_leading_zero(n / 10);
        let d = spec_encode_nat(n / 10);
        if n / 10 < 10 {
            assert(n / 10 >= 1);
            assert(d == seq![digit_char((n / 10) as int)]);
        } else {
            lemma_enc_nat_digits(n / 100);
            assert(d.len() > 1);
        }
        assert(spec_encode_nat(n)[0] == d[0]);
    }
}

/// The decimal form of `n` is all digits and denotes `n`.
proof fn lemma_enc_nat_digits(n: nat)
    ensures
        spec_encode_nat(n).len() >= 1,
        forall|t: int|
            0 <= t < spec_encode_nat(n).len() ==> is_digit_char(#[trigger] spec_encode_nat(n)[t]),
        val_of_digits(spec_encode_nat(n)) == n,
    decreases n,
{
    if n < 10 {
        assert(val_of_digits(Seq::<char>::empty()) == 0);
        assert(val_of_digits(spec_encode_nat(n)) == n) by {
            assert(spec_encode_nat(n).drop_last() =~= Seq::<char>::empty());
            assert(spec_encode_nat(n).last() == digit_char(n as int));
        }
    } else {
        lemma_enc_nat_digits(n / 10);
        let d = spec_encode_nat(n / 10);
        let w = d.push(digit_char((n % 10) as int));
        assert(w.drop_last() =~= d);
        assert(w.last() == digit_char((n % 10) as int));
        assert(val_of_digits(w) == val_of_digits(d) * 10 + digit_val(digit_char((n % 10) as int)));
        assert(forall|t: int| 0 <= t < w.len() ==> is_digit_char(#[trigger] w[t])) by {
            assert(forall|t: int| 0 <= t < d.len() ==> w[t] == d[t]);
        }
    }
}

/// A maximal digit run bounded on the right by a non-digit parses whole.
proof fn lemma_parse_digit_run(ctx: Seq<char>, i: int, len: int)
    requires
        0 <= i,
        len >= 0,
        i + len < ctx.len(),
        forall|t: int| i <= t < i + len ==> is_digit_char(#[trigger] ctx[t]),
        !is_digit_char(ctx[i + len]),
    ensures
        spec_parse_digits(ctx, i) == (ctx.subrange(i, i + len), i + len),
    decreases len,
{
    if len == 0 {
        assert(ctx.subrange(i, i) =~= Seq::<char>::empty());
    } else {
        assert(is_digit_char(ctx[i]));
        lemma_parse_digit_run(ctx, i + 1, len - 1);
        assert(seq![ctx[i]] + ctx.subrange(i + 1, i + len) =~= ctx.subrange(i, i + len));
    }
}

/// A `u64` written in decimal, bounded on the right by a character that
/// neither extends the digits nor makes a fraction or exponent, parses back
/// to itself.
proof fn lemma_parse_u64_at(n: u64, ctx: Seq<char>, pre: Seq<char>, post: Seq<char>)
    requires
        ctx == pre + spec_encode_nat(n as nat) + post,
        post.len() > 0,
        !is_digit_char(post[0]),
        post[0] != '.' && post[0] != 'e' && post[0] != 'E',
    ensures
        spec_parse_u64(ctx, pre.len() as int) == Ok::<_, DecodeError>(
            (n, pre.len() as int + spec_encode_nat(n as nat).len() as int),
        ),
{
    let d = spec_encode_nat(n as nat);
    let i = pre.len() as int;
    lemma_enc_nat_digits(n as nat);
    lemma_enc_nat_no_leading_zero(n as nat);
    lemma_take_part(ctx, pre, d, post);
    assert(ctx[i + d.len()] == post[0]) by {
        assert(ctx =~= (pre + d) + post + Seq::<char>::empty());
        lemma_take_part(ctx, pre + d, post, Seq::<char>::empty());
    }
    assert(forall|t: int| i <= t < i + d.len() ==> is_digit_char(#[trigger] ctx[t])) by {
        assert(forall|t: int| i <= t < i + d.len() ==> #[trigger] ctx[t] == d[t - i]);
    }
    lemma_parse_digit_run(ctx, i, d.len() as int);
}

/// A request id written in decimal parses back, under the same bound.
proof fn lemma_parse_u16_at(id: u16, ctx: Seq<char>, pre: Seq<char>, post: Seq<char>)
    requires
        ctx == pre + spec_encode_nat(id as nat) + post,
        post.len() > 0,
        !is_digit_char(post[0]),
        post[0] != '.' && post[0] != 'e' && post[0] != 'E',
    ensures
        spec_parse_u16(ctx, pre.len() as int) == Ok::<_, DecodeError>(
            (id, pre.len() as int + spec_encode_nat(id as nat).len() as int),
        ),
{
    lemma_parse_u64_at(id as u64, ctx, pre, post);
}

/// A `true`/`false` part of `ctx` parses back.
proof fn lemma_parse_bool_at(b: bool, ctx: Seq<char>, pre: Seq<char>, post: Seq<char>)
    requires
        ctx == pre + spec_encode_bool(b) + post,
    ensures
        spec_parse_bool(ctx, pre.len() as int) == Ok::<_, DecodeError>(
            (b, pre.len() as int + spec_encode_bool(b).len() as int),
        ),
{
    reveal_strlit("true");
    reveal_strlit("false");
    lemma_take_part(ctx, pre, spec_encode_bool(b), post);
    if !b {
        assert(ctx[pre.len() as int + 0] == spec_encode_bool(b)[0]);
        lemma_not_lit(ctx, pre.len() as int, "true"@, 'f');
    }
}

/// A text whose object parses to slots that assemble to `m` decodes to `m`.
proof fn lemma_decode_of(ctx: Seq<char>, sl: SlotsModel, m: MessageModel)
    requires
        ctx.len() > 0,
        ctx[0] == '{',
        spec_parse_members(ctx, 1, empty_slots(), false, ctx.len()) == Ok::<_, DecodeError>(
            (sl, ctx.len() as int),
        ),
        spec_assemble(sl) == Ok::<_, DecodeError>(m),
    ensures
        spec_decode(ctx) == Ok::<_, DecodeError>(m),
{
    assert(!is_ws('{'));
    assert(spec_skip_ws(ctx, 0) == 0);
    assert(spec_skip_ws(ctx, ctx.len() as int) == ctx.len());
}

#[verifier::rlimit(100)]
proof fn lemma_clear_parts(id: u16)
    ensures
        ({
            let ctx = spec_encode(MessageModel::Clear { id });
            let nn = spec_encode_nat(id as nat);
            &&& ctx.len() == 22 + nn.len()
            &&& ctx[0] == '{'
            &&& ctx[1] == '"'
            &&& ctx[7] == ':'
            &&& ctx[8] == '"'
            &&& ctx[15] == ','
            &&& ctx[16] == '"'
            &&& ctx[20] == ':'
            &&& ctx[21] == nn[0]
            &&& ctx[21 + nn.len() as int] == '}'
            &&& spec_parse_str_rest(ctx, 2) == Ok::<_, DecodeError>(("type"@, 7int))
            &&& spec_parse_jstring(ctx, 8) == Ok::<_, DecodeError>(("clear"@, 15int))
            &&& spec_parse_str_rest(ctx, 17) == Ok::<_, DecodeError>(("id"@, 20int))
            &&& spec_parse_u16(ctx, 21) == Ok::<_, DecodeError>((id, 21 + nn.len() as int))
        }),
{
    let a1 = "{\""@;
    let a2 = "type\""@;
    let a3 = ":"@;
    let a4 = "\""@;
    let a5 = "clear\""@;
    let a6 = ",\""@;
    let a7 = "id\""@;
    let a8 = ":"@;
    let nn = spec_encode_nat(id as nat);
    let a10 = "}"@;
    let m = MessageModel::Clear { id };
    let ctx = spec_encode(m);
    reveal_strlit("{\"");
    reveal_strlit("type\"");
    reveal_strlit(":");
    reveal_strlit("\"");
    reveal_strlit("clear\"");
    reveal_strlit(",\"");
    reveal_strlit("id\"");
    reveal_strlit("}");
    reveal_strlit("type");
    reveal_strlit("clear");
    reveal_strlit("id");
    lemma_enc_nat_digits(id as nat);
    let r2 = a2 + (a3 + (a4 + (a5 + (a6 + (a7 + (a8 + (nn + a10)))))));
    let r3 = a3 + (a4 + (a5 + (a6 + (a7 + (a8 + (nn + a10))))));
    let r4 = a4 + (a5 + (a6 + (a7 + (a8 + (nn + a10)))));
    let r5 = a5 + (a6 + (a7 + (a8 + (nn + a10))));
    let r6 = a6 + (a7 + (a8 + (nn + a10)));
    let r7 = a7 + (a8 + (nn + a10));
    let r8 = a8 + (nn + a10);
    assert(ctx =~= Seq::<char>::empty() + a1 + r2);
    lemma_take_part(ctx, Seq::<char>::empty(), a1, r2);
    let q1 = a1;
    assert(ctx =~= q1 + a2 + r3);
    lemma_take_part(ctx, q1, a2, r3);
    let q2 = q1 + a2;
    assert(ctx =~= q2 + a3 + r4);
    lemma_take_part(ctx, q2, a3, r4);
    let q3 = q2 + a3;
    assert(ctx =~= q3 + a4 + r5);
    lemma_take_part(ctx, q3, a4, r5);
    let q4 = q3 + a4;
    assert(ctx =~= q4 + a5 + r6);
    lemma_take_part(ctx, q4, a5, r6);
    let q5 = q4 + a5;
    assert(ctx =~= q5 + a6 + r7);
    lemma_take_part(ctx, q5, a6, r7);
    let q6 = q5 + a6;
    assert(ctx =~= q6 + a7 + r8);
    lemma_take_part(ctx, q6, a7, r8);
    let q7 = q6 + a7;
    assert(ctx =~= q7 + a8 + (nn + a10));
    lemma_take_part(ctx, q7, a8, nn + a10);
    let q8 = q7 + a8;
    assert(ctx =~= q8 + nn + a10);
    lemma_take_part(ctx, q8, nn, a10);
    let q9 = q8 + nn;
    assert(ctx =~= q9 + a10 + Seq::<char>::empty());
    lemma_take_part(ctx, q9, a10, Seq::<char>::empty());
    assert(a2 =~= "type"@ + seq!['"']);
    assert(ctx =~= q1 + ("type"@ + seq!['"']) + r3);
    lemma_parse_plain_at("type"@, ctx, q1, r3);
    assert(a5 =~= "clear"@ + seq!['"']);
    assert(ctx =~= q4 + ("clear"@ + seq!['"']) + r6);
    lemma_parse_plain_at("clear"@, ctx, q4, r6);
    assert(a7 =~= "id"@ + seq!['"']);
    assert(ctx =~= q6 + ("id"@ + seq!['"']) + r8);
    lemma_parse_plain_at("id"@, ctx, q6, r8);
    lemma_parse_u16_at(id, ctx, q8, a10);
    assert(ctx[21] == nn[0]);
}

#[verifier::rlimit(100)]
proof fn lemma_clear_walk(ctx: Seq<char>, id: u16)
    requires
        ({
            let nn = spec_encode_nat(id as nat);
            &&& ctx.len() == 22 + nn.len()
            &&& ctx[1] == '"'
            &&& ctx[7] == ':'
            &&& ctx[8] == '"'
            &&& ctx[15] == ','
            &&& ctx[16] == '"'
            &&& ctx[20] == ':'
            &&& ctx[21] == nn[0]
            &&& ctx[21 + nn.len() as int] == '}'
            &&& spec_parse_str_rest(ctx, 2) == Ok::<_, DecodeError>(("type"@, 7int))
            &&& spec_parse_jstring(ctx, 8) == Ok::<_, DecodeError>(("clear"@, 15int))
            &&& spec_parse_str_rest(ctx, 17) == Ok::<_, DecodeError>(("id"@, 20int))
            &&& spec_parse_u16(ctx, 21) == Ok::<_, DecodeError>((id, 21 + nn.len() as int))
        }),
    ensures
        spec_parse_members(ctx, 1, empty_slots(), false, ctx.len()) == Ok::<_, DecodeError>(
            (
                SlotsModel {
                    tag: Some("clear"@),
                    msg: None,
                    time: None,
                    app_id: None,
                    service: None,
                    id: Some(id),
                },
                ctx.len() as int,
            ),
        ),
{
    let nn = spec_encode_nat(id as nat);
    lemma_enc_nat_digits(id as nat);
    reveal_strlit("type");
    reveal_strlit("clear");
    reveal_strlit("id");
    reveal_strlit("msg");
    reveal_strlit("time");
    reveal_strlit("appId");
    reveal_strlit("service");
    reveal_with_fuel(spec_parse_members, 3);
    let flen = ctx.len();
    let sl1 = SlotsModel {
        tag: Some("clear"@),
        msg: None,
        time: None,
        app_id: None,
        service: None,
        id: None,
    };
    let sl2 = SlotsModel {
        tag: Some("clear"@),
        msg: None,
        time: None,
        app_id: None,
        service: None,
        id: Some(id),
    };
    assert(spec_skip_ws(ctx, 1) == 1);
    assert(spec_skip_ws(ctx, 7) == 7);
    assert(spec_skip_ws(ctx, 8) == 8);
    assert(spec_member_value(ctx, 8, empty_slots(), "type"@, (flen - 1) as nat) == Ok::<
        _,
        DecodeError,
    >((sl1, 15int)));
    assert(spec_skip_ws(ctx, 15) == 15);
    assert(spec_skip_ws(ctx, 16) == 16);
    assert(spec_skip_ws(ctx, 20) == 20);
    assert(!is_ws(ctx[21]));
    assert(spec_skip_ws(ctx, 21) == 21);
    assert("id"@.len() == 2);
    assert("type"@.len() == 4);
    assert("id"@ != "type"@ && "id"@ != "msg"@ && "id"@ != "time"@ && "id"@ != "appId"@);
    assert(spec_parse_u16(ctx, 21) == Ok::<_, DecodeError>((id, 21 + nn.len() as int)));
    assert(spec_member_value(ctx, 21, sl1, "id"@, (flen - 2) as nat) == Ok::<_, DecodeError>(
        (sl2, 21 + nn.len() as int),
    ));
    assert(spec_skip_ws(ctx, 21 + nn.len() as int) == 21 + nn.len());
    assert(spec_parse_members(ctx, 16, sl1, true, (flen - 1) as nat) == Ok::<_, DecodeError>(
        (sl2, ctx.len() as int),
    ));
}

/// Law: decoding an encoded `Clear` message gives the message back, for
/// every id.
#[verifier::rlimit(100)]
#[verifier::spinoff_prover]
pub proof fn lemma_round_trip_clear(id: u16)
    ensures
        spec_decode(spec_encode(MessageModel::Clear { id })) == Ok::<MessageModel, DecodeError>(
            MessageModel::Clear { id },
        ),
{
    let m = MessageModel::Clear { id };
    let ctx = spec_encode(m);
    lemma_clear_parts(id);
    lemma_clear_walk(ctx, id);
    reveal_strlit("hello");
    reveal_strlit("update");
    reveal_strlit("clear");
    reveal_strlit("ack");
    let sl2 = SlotsModel {
        tag: Some("clear"@),
        msg: None,
        time: None,
        app_id: None,
        service: None,
        id: Some(id),
    };
    assert("clear"@ != "hello"@) by {
        assert("clear"@[0] == 'c' && "hello"@[0] == 'h');
    }
    assert(spec_assemble(sl2) == Ok::<_, DecodeError>(m));
    lemma_decode_of(ctx, sl2, m);
}


#[verifier::rlimit(100)]
proof fn lemma_ack_parts(id: u16)
    ensures
        ({
            let ctx = spec_encode(MessageModel::Ack { id });
            let nn = spec_encode_nat(id as nat);
            &&& ctx.len() == 20 + nn.len()
            &&& ctx[0] == '{'
            &&& ctx[1] == '"'
            &&& ctx[7] == ':'
            &&& ctx[8] == '"'
            &&& ctx[13] == ','
            &&& ctx[14] == '"'
            &&& ctx[18] == ':'
            &&& ctx[19] == nn[0]
            &&& ctx[19 + nn.len() as int] == '}'
            &&& spec_parse_str_rest(ctx, 2) == Ok::<_, DecodeError>(("type"@, 7int))
            &&& spec_parse_jstring(ctx, 8) == Ok::<_, DecodeError>(("ack"@, 13int))
            &&& spec_parse_str_rest(ctx, 15) == Ok::<_, DecodeError>(("id"@, 18int))
            &&& spec_parse_u16(ctx, 19) == Ok::<_, DecodeError>((id, 19 + nn.len() as int))
        }),
{
    let a1 = "{\""@;
    let a2 = "type\""@;
    let a3 = ":"@;
    let a4 = "\""@;
    let a5 = "ack\""@;
    let a6 = ",\""@;
    let a7 = "id\""@;
    let a8 = ":"@;
    let nn = spec_encode_nat(id as nat);
    let a10 = "}"@;
    let ctx = spec_encode(MessageModel::Ack { id });
    reveal_strlit("{\"");
    reveal_strlit("type\"");
    reveal_strlit(":");
    reveal_strlit("\"");
    reveal_strlit("ack\"");
    reveal_strlit(",\"");
    reveal_strlit("id\"");
    reveal_strlit("}");
    reveal_strlit("type");
    reveal_strlit("ack");
    reveal_strlit("id");
    lemma_enc_nat_digits(id as nat);
    let r2 = a2 + (a3 + (a4 + (a5 + (a6 + (a7 + (a8 + (nn + a10)))))));
    let r3 = a3 + (a4 + (a5 + (a6 + (a7 + (a8 + (nn + a10))))));
    let r4 = a4 + (a5 + (a6 + (a7 + (a8 + (nn + a10)))));
    let r5 = a5 + (a6 + (a7 + (a8 + (nn + a10))));
    let r6 = a6 + (a7 + (a8 + (nn + a10)));
    let r7 = a7 + (a8 + (nn + a10));
    let r8 = a8 + (nn + a10);
    assert(ctx =~= Seq::<char>::empty() + a1 + r2);
    lemma_take_part(ctx, Seq::<char>::empty(), a1, r2);
    let q1 = a1;
    assert(ctx =~= q1 + a2 + r3);
    lemma_take_part(ctx, q1, a2, r3);
    let q2 = q1 + a2;
    assert(ctx =~= q2 + a3 + r4);
    lemma_take_part(ctx, q2, a3, r4);
    let q3 = q2 + a3;
    assert(ctx =~= q3 + a4 + r5);
    lemma_take_part(ctx, q3, a4, r5);
    let q4 = q3 + a4;
    assert(ctx =~= q4 + a5 + r6);
    lemma_take_part(ctx, q4, a5, r6);
    let q5 = q4 + a5;
    assert(ctx =~= q5 + a6 + r7);
    lemma_take_part(ctx, q5, a6, r7);
    let q6 = q5 + a6;
    assert(ctx =~= q6 + a7 + r8);
    lemma_take_part(ctx, q6, a7, r8);
    let q7 = q6 + a7;
    assert(ctx =~= q7 + a8 + (nn + a10));
    lemma_take_part(ctx, q7, a8, nn + a10);
    let q8 = q7 + a8;
    assert(ctx =~= q8 + nn + a10);
    lemma_take_part(ctx, q8, nn, a10);
    let q9 = q8 + nn;
    assert(ctx =~= q9 + a10 + Seq::<char>::empty());
    lemma_take_part(ctx, q9, a10, Seq::<char>::empty());
    assert(a2 =~= "type"@ + seq!['"']);
    assert(ctx =~= q1 + ("type"@ + seq!['"']) + r3);
    lemma_parse_plain_at("type"@, ctx, q1, r3);
    assert(a5 =~= "ack"@ + seq!['"']);
    assert(ctx =~= q4 + ("ack"@ + seq!['"']) + r6);
    lemma_parse_plain_at("ack"@, ctx, q4, r6);
    assert(a7 =~= "id"@ + seq!['"']);
    assert(ctx =~= q6 + ("id"@ + seq!['"']) + r8);
    lemma_parse_plain_at("id"@, ctx, q6, r8);
    lemma_parse_u16_at(id, ctx, q8, a10);
    assert(ctx[19] == nn[0]);
}

#[verifier::rlimit(100)]
proof fn lemma_ack_walk(ctx: Seq<char>, id: u16)
    requires
        ({
            let nn = spec_encode_nat(id as nat);
            &&& ctx.len() == 20 + nn.len()
            &&& ctx[1] == '"'
            &&& ctx[7] == ':'
            &&& ctx[8] == '"'
            &&& ctx[13] == ','
            &&& ctx[14] == '"'
            &&& ctx[18] == ':'
            &&& ctx[19] == nn[0]
            &&& ctx[19 + nn.len() as int] == '}'
            &&& spec_parse_str_rest(ctx, 2) == Ok::<_, DecodeError>(("type"@, 7int))
            &&& spec_parse_jstring(ctx, 8) == Ok::<_, DecodeError>(("ack"@, 13int))
            &&& spec_parse_str_rest(ctx, 15) == Ok::<_, DecodeError>(("id"@, 18int))
            &&& spec_parse_u16(ctx, 19) == Ok::<_, DecodeError>((id, 19 + nn.len() as int))
        }),
    ensures
        spec_parse_members(ctx, 1, empty_slots(), false, ctx.len()) == Ok::<_, DecodeError>(
            (
                SlotsModel {
                    tag: Some("ack"@),
                    msg: None,
                    time: None,
                    app_id: None,
                    service: None,
                    id: Some(id),
                },
                ctx.len() as int,
            ),
        ),
{
    let nn = spec_encode_nat(id as nat);
    lemma_enc_nat_digits(id as nat);
    reveal_strlit("type");
    reveal_strlit("ack");
    reveal_strlit("id");
    reveal_strlit("msg");
    reveal_strlit("time");
    reveal_strlit("appId");
    reveal_strlit("service");
    reveal_with_fuel(spec_parse_members, 3);
    let flen = ctx.len();
    let sl1 = SlotsModel {
        tag: Some("ack"@),
        msg: None,
        time: None,
        app_id: None,
        service: None,
        id: None,
    };
    let sl2 = SlotsModel {
        tag: Some("ack"@),
        msg: None,
        time: None,
        app_id: None,
        service: None,
        id: Some(id),
    };
    assert(spec_skip_ws(ctx, 1) == 1);
    assert(spec_skip_ws(ctx, 7) == 7);
    assert(spec_skip_ws(ctx, 8) == 8);
    assert(spec_member_value(ctx, 8, empty_slots(), "type"@, (flen - 1) as nat) == Ok::<
        _,
        DecodeError,
    >((sl1, 13int)));
    assert(spec_skip_ws(ctx, 13) == 13);
    assert(spec_skip_ws(ctx, 14) == 14);
    assert(spec_skip_ws(ctx, 18) == 18);
    assert(!is_ws(ctx[19]));
    assert(spec_skip_ws(ctx, 19) == 19);
    assert("id"@ != "type"@ && "id"@ != "msg"@ && "id"@ != "time"@ && "id"@ != "appId"@);
    assert(spec_parse_u16(ctx, 19) == Ok::<_, DecodeError>((id, 19 + nn.len() as int)));
    assert(spec_member_value(ctx, 19, sl1, "id"@, (flen - 2) as nat) == Ok::<_, DecodeError>(
        (sl2, 19 + nn.len() as int),
    ));
    assert(spec_skip_ws(ctx, 19 + nn.len() as int) == 19 + nn.len());
    assert(spec_parse_members(ctx, 14, sl1, true, (flen - 1) as nat) == Ok::<_, DecodeError>(
        (sl2, ctx.len() as int),
    ));
}

/// Law: decoding an encoded `Ack` message gives the message back, for
/// every id.
#[verifier::rlimit(100)]
#[verifier::spinoff_prover]
pub proof fn lemma_round_trip_ack(id: u16)
    ensures
        spec_decode(spec_encode(MessageModel::Ack { id })) == Ok::<MessageModel, DecodeError>(
            MessageModel::Ack { id },
        ),
{
    let m = MessageModel::Ack { id };
    let ctx = spec_encode(m);
    lemma_ack_parts(id);
    lemma_ack_walk(ctx, id);
    reveal_strlit("hello");
    reveal_strlit("update");
    reveal_strlit("clear");
    reveal_strlit("ack");
    let sl2 = SlotsModel {
        tag: Some("ack"@),
        msg: None,
        time: None,
        app_id: None,
        service: None,
        id: Some(id),
    };
    assert("ack"@.len() == 3 && "hello"@.len() == 5 && "update"@.len() == 6 && "clear"@.len()
        == 5);
    assert("ack"@ != "hello"@ && "ack"@ != "update"@ && "ack"@ != "clear"@);
    assert(spec_assemble(sl2) == Ok::<_, DecodeError>(m));
    lemma_decode_of(ctx, sl2, m);
}

} // verus!