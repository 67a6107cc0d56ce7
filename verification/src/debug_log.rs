//! Decisions and text of the optional debug logger.
//!
//! `--debug` enables logging with PII redaction (phone numbers masked,
//! message bodies summarised); `--debug-full` enables logging with full
//! unredacted output.  The log file is rotated when it exceeds
//! [`MAX_LOG_SIZE`] bytes.

use vstd::prelude::*;
use vstd::string::StringSliceAdditionalSpecFns;
use vstd::utf8::{decode_utf8, encode_utf8};

use crate::text::{chars_of, decimal, push_char, push_decimal, push_str};

verus! {

broadcast use vstd::string::group_string_axioms;

/// Size in bytes above which an existing log file is rotated (10 MiB).
pub const MAX_LOG_SIZE: u64 = 10 * 1024 * 1024;

/// Whether logging is on and whether personal data is redacted in it.
#[derive(Debug, Clone, Copy, PartialEq, Eq)]
pub struct LogSettings {
    pub enabled: bool,
    pub redact: bool,
}

impl Default for LogSettings {
    /// Logging off, redaction on.
    fn default() -> (s: Self)
        ensures
            s == (LogSettings { enabled: false, redact: true }),
    {
        LogSettings { enabled: false, redact: true }
    }
}

/// Enable debug logging with PII redaction (--debug).
pub fn enable(settings: &mut LogSettings)
    ensures
        *final(settings) == (LogSettings { enabled: true, redact: true }),
{
    settings.enabled = true;
    settings.redact = true;
}

/// Enable debug logging without PII redaction (--debug-full).
pub fn enable_full(settings: &mut LogSettings)
    ensures
        *final(settings) == (LogSettings { enabled: true, redact: false }),
{
    settings.enabled = true;
    settings.redact = false;
}

/// Whether PII should be redacted in log output.
pub fn redact(settings: &LogSettings) -> (r: bool)
    ensures
        r == settings.redact,
{
    settings.redact
}

/// Whether an existing log file of `size` bytes is rotated before logging starts.
pub fn needs_rotation(size: u64) -> (r: bool)
    ensures
        r == (size > MAX_LOG_SIZE),
{
    size > MAX_LOG_SIZE
}

pub open spec fn redacted_text() -> Seq<char> {
    seq!['[', 'r', 'e', 'd', 'a', 'c', 't', 'e', 'd', ']']
}

pub open spec fn stars_ellipsis() -> Seq<char> {
    seq!['*', '*', '*', '.', '.', '.']
}

pub open spec fn ellipsis() -> Seq<char> {
    seq!['.', '.', '.']
}

/// The two byte positions at which a masked phone number is cut: the
/// `+` form keeps byte 1 and the last 3 bytes, the long form the first 4
/// and the last 4 bytes.
pub open spec fn is_plus_form(phone: Seq<char>) -> bool {
    phone.len() > 0 && phone[0] == '+' && encode_utf8(phone).len() > 5
}

/// The cuts of [`spec_mask_phone`] fall between characters (the string is
/// sliced there).
pub open spec fn mask_phone_cuts_ok(redact: bool, phone: Seq<char>) -> bool {
    let b = encode_utf8(phone);
    redact ==> if is_plus_form(phone) {
        vstd::utf8::is_char_boundary(b, 2) && vstd::utf8::is_char_boundary(b, b.len() - 3)
    } else if b.len() > 8 {
        vstd::utf8::is_char_boundary(b, 4) && vstd::utf8::is_char_boundary(b, b.len() - 4)
    } else {
        true
    }
}

/// A phone number as the log shows it.  Unredacted: unchanged.  Redacted:
/// `+` numbers longer than 5 bytes keep their first digit and last 3 bytes
/// (`"+15551234567"` becomes `"+1***...567"`); other identifiers longer than
/// 8 bytes keep their first and last 4 bytes around `...`; anything shorter
/// becomes `"[redacted]"`.
pub open spec fn spec_mask_phone(redact: bool, phone: Seq<char>) -> Seq<char> {
    let b = encode_utf8(phone);
    if !redact {
        phone
    } else if is_plus_form(phone) {
        seq!['+'] + decode_utf8(b.subrange(1, 2)) + stars_ellipsis() + decode_utf8(
            b.subrange(b.len() - 3, b.len() as int),
        )
    } else if b.len() > 8 {
        decode_utf8(b.subrange(0, 4)) + ellipsis() + decode_utf8(
            b.subrange(b.len() - 4, b.len() as int),
        )
    } else {
        redacted_text()
    }
}

/// The characters of a string slice are the decoding of its bytes.
proof fn lemma_view_is_decoded(s: &str)
    ensures
        s@ == decode_utf8(s.spec_bytes()),
        vstd::utf8::valid_utf8(s.spec_bytes()),
{
    vstd::utf8::encode_utf8_decode_utf8(s@);
    vstd::utf8::encode_utf8_valid_utf8(s@);
}

/// Mask a phone number for redacted logging: "+15551234567" → "+1***...567".
pub fn mask_phone(settings: &LogSettings, phone: &str) -> (res: String)
    requires
        mask_phone_cuts_ok(settings.redact, phone@),
    ensures
        res@ == spec_mask_phone(settings.redact, phone@),
{
    proof {
        reveal_strlit("+");
        reveal_strlit("***...");
        reveal_strlit("...");
        reveal_strlit("[redacted]");
        lemma_view_is_decoded(phone);
    }
    let ghost b = phone.spec_bytes();
    if !redact(settings) {
        let mut out = String::new();
        push_str(&mut out, phone);
        return out;
    }
    let v = chars_of(phone);
    let n = phone.as_bytes().len();
    if v.len() > 0 && v[0] == '+' && n > 5 {
        let (head, _) = phone.split_at(2);
        let (_, tail) = phone.split_at(n - 3);
        let hv = chars_of(head);
        proof {
            lemma_view_is_decoded(head);
            lemma_view_is_decoded(tail);
            lemma_plus_head(phone@);
        }
        let mut out = String::new();
        push_char(&mut out, '+');
        crate::text::push_chars(&mut out, &hv, 1, hv.len());
        push_str(&mut out, "***...");
        push_str(&mut out, tail);
        assert("***..."@ =~= stars_ellipsis());
        out
    } else if n > 8 {
        let (head, _) = phone.split_at(4);
        let (_, tail) = phone.split_at(n - 4);
        proof {
            lemma_view_is_decoded(head);
            lemma_view_is_decoded(tail);
        }
        let mut out = String::new();
        push_str(&mut out, head);
        push_str(&mut out, "...");
        push_str(&mut out, tail);
        assert("..."@ =~= ellipsis());
        out
    } else {
        let mut out = String::new();
        push_str(&mut out, "[redacted]");
        assert("[redacted]"@ =~= redacted_text());
        out
    }
}

/// The first two bytes of a string that starts with `+` decode to `+`
/// followed by the decoding of its second byte.
proof fn lemma_plus_head(phone: Seq<char>)
    requires
        phone.len() > 0,
        phone[0] == '+',
        encode_utf8(phone).len() > 5,
        vstd::utf8::is_char_boundary(encode_utf8(phone), 2),
    ensures
        decode_utf8(encode_utf8(phone).subrange(0, 2)) == seq!['+'] + decode_utf8(
            encode_utf8(phone).subrange(1, 2),
        ),
{
    let b = encode_utf8(phone);
    vstd::utf8::encode_utf8_valid_utf8(phone);
    vstd::utf8::encode_utf8_first_scalar(phone);
    vstd::utf8::valid_utf8_split(b, 2);
    let x = b.subrange(0, 2);
    assert(('+' as u32) == 43u32);
    assert(((43u32 & 0x7F) as u8) == 43u8) by (bit_vector);
    assert(vstd::utf8::encode_scalar(43u32) =~= seq![43u8]);
    assert(b =~= seq![43u8] + encode_utf8(phone.drop_first()));
    assert(b[0] == 43u8);
    assert(x[0] == 43u8);
    assert(vstd::utf8::pop_first_scalar(x) =~= b.subrange(1, 2));
}

/// The summary of a message body in redacted logs.
pub open spec fn spec_mask_body(redact: bool, body: Seq<char>) -> Seq<char> {
    if !redact {
        body
    } else {
        seq!['[', 'm', 's', 'g', ':', ' '] + decimal(encode_utf8(body).len()) + seq![
            ' ',
            'c',
            'h',
            'a',
            'r',
            's',
            ']',
        ]
    }
}

/// Summarize a message body for redacted logging: "hello world" → "[msg: 11 chars]"
/// (the count is in bytes).
pub fn mask_body(settings: &LogSettings, body: &str) -> (res: String)
    ensures
        res@ == spec_mask_body(settings.redact, body@),
{
    proof {
        reveal_strlit("[msg: ");
        reveal_strlit(" chars]");
    }
    let mut out = String::new();
    if !redact(settings) {
        push_str(&mut out, body);
        return out;
    }
    push_str(&mut out, "[msg: ");
    push_decimal(&mut out, body.as_bytes().len());
    push_str(&mut out, " chars]");
    assert("[msg: "@ =~= seq!['[', 'm', 's', 'g', ':', ' ']);
    assert(" chars]"@ =~= seq![' ', 'c', 'h', 'a', 'r', 's', ']']);
    out
}

/// The line that the log receives for `msg` at time `now` (already
/// formatted as `HH:MM:SS.mmm`): `"[now] msg"`, or nothing when logging is off.
pub fn log_line(settings: &LogSettings, now: &str, msg: &str) -> (res: Option<String>)
    ensures
        !settings.enabled ==> res is None,
        settings.enabled ==> (res matches Some(line) && line@ == seq!['['] + now@ + seq![']', ' '] + msg@),
{
    if !settings.enabled {
        return None;
    }
    let mut out = String::new();
    push_char(&mut out, '[');
    push_str(&mut out, now);
    push_char(&mut out, ']');
    push_char(&mut out, ' ');
    push_str(&mut out, msg);
    Some(out)
}

/// Redaction hides message contents: with redaction on, two bodies of the
/// same byte length are summarised alike, and the summary shows that
/// length; with it off, the body is logged as it is.
pub proof fn lemma_body_summary_hides_text(b1: Seq<char>, b2: Seq<char>)
    ensures
        encode_utf8(b1).len() == encode_utf8(b2).len() ==> spec_mask_body(true, b1)
            == spec_mask_body(true, b2),
        spec_mask_body(true, b1) == seq!['[', 'm', 's', 'g', ':', ' '] + decimal(
            encode_utf8(b1).len(),
        ) + seq![' ', 'c', 'h', 'a', 'r', 's', ']'],
        spec_mask_body(false, b1) == b1,
{
}

/// Redaction hides phone numbers: with it on, identifiers of at most 8
/// bytes that are not `+` numbers all show as `[redacted]`, and two `+`
/// numbers that agree in their first digit and last three bytes show
/// alike whatever lies between; with it off, the number is logged as it is.
pub proof fn lemma_phone_mask_hides_middle(p1: Seq<char>, p2: Seq<char>)
    ensures
        !is_plus_form(p1) && encode_utf8(p1).len() <= 8 ==> spec_mask_phone(true, p1)
            == redacted_text(),
        ({
            let e1 = encode_utf8(p1);
            let e2 = encode_utf8(p2);
            is_plus_form(p1) && is_plus_form(p2) && e1.subrange(1, 2) == e2.subrange(1, 2)
                && e1.subrange(e1.len() - 3, e1.len() as int) == e2.subrange(
                e2.len() - 3,
                e2.len() as int,
            ) ==> spec_mask_phone(true, p1) == spec_mask_phone(true, p2)
        }),
        spec_mask_phone(false, p1) == p1,
{
}

/// Formatting arguments of `std::fmt`; opaque to the proofs.
#[verifier::external_type_specification]
#[verifier::external_body]
pub struct ExArguments<'a>(std::fmt::Arguments<'a>);

/// `format!("{args}")`: the text that the formatting arguments produce.
/// Nothing is claimed of it: the arguments are opaque here.
#[verifier::external_body]
fn format_arguments(args: std::fmt::Arguments<'_>) -> String {
    format!("{args}")
}

/// The log line for preformatted arguments at time `now`: the arguments
/// are formatted only when logging is on, and the line is `"[now] "`
/// followed by their text.
pub fn logf(settings: &LogSettings, now: &str, args: std::fmt::Arguments<'_>) -> (res: Option<String>)
    ensures
        !settings.enabled ==> res is None,
        settings.enabled ==> (res matches Some(line) && exists|text: Seq<char>|
            line@ == seq!['['] + now@ + seq![']', ' '] + text),
{
    if !settings.enabled {
        return None;
    }
    let text = format_arguments(args);
    log_line(settings, now, text.as_str())
}

} // verus!
