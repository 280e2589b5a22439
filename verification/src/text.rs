//! Response and request handling for the two remote services.
//!
//! All text is handled as UTF-8 bytes. The transcription response is either
//! a raw transcript (taken trimmed) or a JSON object with a `text` field;
//! the polish response is a chat-completion JSON document whose first
//! choice's message content is the rewritten text. Polish failure is never
//! fatal: the delivered text falls back to the unpolished transcript.

use vstd::prelude::*;
use vstd::string::StringSliceAdditionalSpecFns;

verus! {

/// ASCII whitespace.
pub open spec fn is_ws(b: u8) -> bool {
    b == 32 || b == 9 || b == 10 || b == 13 || b == 11 || b == 12
}

/// The sequence with leading whitespace removed.
pub open spec fn trim_front(s: Seq<u8>) -> Seq<u8>
    decreases s.len(),
{
    if s.len() > 0 && is_ws(s[0]) {
        trim_front(s.drop_first())
    } else {
        s
    }
}

/// The sequence with trailing whitespace removed.
pub open spec fn trim_back(s: Seq<u8>) -> Seq<u8>
    decreases s.len(),
{
    if s.len() > 0 && is_ws(s.last()) {
        trim_back(s.drop_last())
    } else {
        s
    }
}

/// The sequence with whitespace removed from both ends.
pub open spec fn spec_trimmed(s: Seq<u8>) -> Seq<u8> {
    trim_back(trim_front(s))
}

fn byte_is_ws(b: u8) -> (r: bool)
    ensures
        r == is_ws(b),
{
    b == 32 || b == 9 || b == 10 || b == 13 || b == 11 || b == 12
}

/// Copies the input with ASCII whitespace removed from both ends.
pub fn trim_bytes(v: &Vec<u8>) -> (r: Vec<u8>)
    ensures
        r@ == spec_trimmed(v@),
{
    let n = v.len();
    let mut start: usize = 0;
    proof {
        assert(v@.skip(0) =~= v@);
    }
    while start < n && byte_is_ws(v[start])
        invariant
            n == v@.len(),
            0 <= start <= n,
            trim_front(v@) == trim_front(v@.skip(start as int)),
        decreases n - start,
    {
        proof {
            assert(v@.skip(start as int)[0] == v@[start as int]);
            assert(v@.skip(start as int).drop_first() =~= v@.skip(start as int + 1));
        }
        start = start + 1;
    }
    proof {
        if start < n {
            assert(v@.skip(start as int)[0] == v@[start as int]);
        }
        assert(trim_front(v@) == v@.skip(start as int));
    }
    let ghost f = v@.skip(start as int);
    let mut end: usize = n;
    proof {
        assert(f.take(n - start) =~= f);
    }
    while end > start && byte_is_ws(v[end - 1])
        invariant
            n == v@.len(),
            0 <= start <= end <= n,
            f == v@.skip(start as int),
            trim_back(f) == trim_back(f.take(end - start)),
        decreases end,
    {
        proof {
            let g = f.take(end - start);
            assert(g.last() == v@[end - 1]);
            assert(g.drop_last() =~= f.take(end - 1 - start));
        }
        end = end - 1;
    }
    proof {
        let g = f.take(end - start);
        if end > start {
            assert(g.last() == v@[end - 1]);
        }
        assert(trim_back(f) == f.take(end - start));
    }
    let mut r: Vec<u8> = Vec::new();
    let mut k: usize = start;
    while k < end
        invariant
            n == v@.len(),
            0 <= start <= k <= end <= n,
            r@ =~= v@.subrange(start as int, k as int),
        decreases end - k,
    {
        r.push(v[k]);
        k = k + 1;
    }
    proof {
        assert(r@ =~= f.take(end - start));
    }
    r
}

/// Why a transcription response yields no transcript: the call failed or
/// came back with a non-success status; the body was a JSON object without a
/// usable `text` field; or the transcript was empty after trimming.
#[derive(Clone, Copy, PartialEq, Eq, Structural, Debug)]
pub enum TranscribeError {
    Http,
    Malformed,
    Empty,
}

/// The top-level string field `text` of a JSON document, when the document
/// is an object that holds one. Named here; stated only through the trusted
/// extraction below.
pub uninterp spec fn json_text_field(body: Seq<u8>) -> Option<Seq<u8>>;

/// Relies on serde_json: `from_slice` parses the document, `Value::get`
/// looks up the top-level field `text`, and the match keeps it only when it
/// is a JSON string. The result depends on the bytes alone.
#[verifier::external_body]
fn json_text_field_exec(body: &[u8]) -> (r: Option<Vec<u8>>)
    ensures
        r is Some <==> json_text_field(body@) is Some,
        r is Some ==> r->0@ == json_text_field(body@)->0,
{
    let v: serde_json::Value = match serde_json::from_slice(body) {
        Ok(v) => v,
        Err(_) => return None,
    };
    match v.get("text") {
        Some(serde_json::Value::String(s)) => Some(s.clone().into_bytes()),
        _ => None,
    }
}

/// The transcript a transcription response yields. A failed call is an
/// error; a body whose trimmed form starts with `{` is read as JSON and must
/// hold a non-empty `text` field; any other body is the transcript itself,
/// trimmed, and must be non-empty.
pub open spec fn spec_transcript(ok: bool, body: Seq<u8>) -> Result<Seq<u8>, TranscribeError> {
    if !ok {
        Err(TranscribeError::Http)
    } else {
        let t = spec_trimmed(body);
        if t.len() > 0 && t[0] == 123u8 {
            match json_text_field(body) {
                Some(text) => if text.len() == 0 {
                    Err(TranscribeError::Empty)
                } else {
                    Ok(text)
                },
                None => Err(TranscribeError::Malformed),
            }
        } else {
            if t.len() == 0 {
                Err(TranscribeError::Empty)
            } else {
                Ok(t)
            }
        }
    }
}

/// Extracts the transcript from a transcription response: `ok` says whether
/// the call succeeded with a success status, `body` is the response body.
pub fn extract_transcript(ok: bool, body: &Vec<u8>) -> (r: Result<Vec<u8>, TranscribeError>)
    ensures
        r is Ok <==> spec_transcript(ok, body@) is Ok,
        r is Ok ==> r->Ok_0@ == spec_transcript(ok, body@)->Ok_0,
        r is Err ==> r->Err_0 == spec_transcript(ok, body@)->Err_0,
{
    if !ok {
        return Err(TranscribeError::Http);
    }
    let t = trim_bytes(body);
    if t.len() > 0 && t[0] == 123 {
        match json_text_field_exec(body.as_slice()) {
            Some(text) => {
                if text.len() == 0 {
                    Err(TranscribeError::Empty)
                } else {
                    Ok(text)
                }
            },
            None => Err(TranscribeError::Malformed),
        }
    } else {
        if t.len() == 0 {
            Err(TranscribeError::Empty)
        } else {
            Ok(t)
        }
    }
}

/// Lower-case hexadecimal digit for a value below 16.
pub open spec fn hex_digit(n: int) -> u8 {
    if n < 10 {
        (48 + n) as u8
    } else {
        (87 + n) as u8
    }
}

/// JSON string escaping of one byte: quote and backslash are escaped, the
/// common control characters get their short escapes, any other control
/// byte a `\u00..` escape; everything else passes through.
pub open spec fn esc_byte(b: u8) -> Seq<u8> {
    if b == 34 {
        seq![92u8, 34u8]
    } else if b == 92 {
        seq![92u8, 92u8]
    } else if b == 10 {
        seq![92u8, 110u8]
    } else if b == 13 {
        seq![92u8, 114u8]
    } else if b == 9 {
        seq![92u8, 116u8]
    } else if b < 32 {
        seq![92u8, 117u8, 48u8, 48u8, hex_digit(b as int / 16), hex_digit(b as int % 16)]
    } else {
        seq![b]
    }
}

/// JSON string escaping of a whole byte sequence.
pub open spec fn json_escaped(s: Seq<u8>) -> Seq<u8>
    decreases s.len(),
{
    if s.len() == 0 {
        Seq::empty()
    } else {
        json_escaped(s.drop_last()) + esc_byte(s.last())
    }
}

/// Appends the JSON-escaped form of `s`.
fn escape_json_into(out: &mut Vec<u8>, s: &[u8])
    ensures
        final(out)@ == old(out)@ + json_escaped(s@),
{
    let n = s.len();
    let mut k: usize = 0;
    proof {
        assert(out@ =~= old(out)@ + json_escaped(s@.take(0)));
    }
    while k < n
        invariant
            n == s@.len(),
            0 <= k <= n,
            out@ == old(out)@ + json_escaped(s@.take(k as int)),
        decreases n - k,
    {
        proof {
            assert(s@.take(k as int + 1).drop_last() =~= s@.take(k as int));
            assert(s@.take(k as int + 1).last() == s@[k as int]);
        }
        let b = s[k];
        if b == 34 {
            out.push(92);
            out.push(34);
        } else if b == 92 {
            out.push(92);
            out.push(92);
        } else if b == 10 {
            out.push(92);
            out.push(110);
        } else if b == 13 {
            out.push(92);
            out.push(114);
        } else if b == 9 {
            out.push(92);
            out.push(116);
        } else if b < 32 {
            out.push(92);
            out.push(117);
            out.push(48);
            out.push(48);
            let hi = b / 16;
            let lo = b % 16;
            out.push(if hi < 10 {
                48 + hi
            } else {
                87 + hi
            });
            out.push(if lo < 10 {
                48 + lo
            } else {
                87 + lo
            });
        } else {
            out.push(b);
        }
        k = k + 1;
        proof {
            assert(out@ =~= old(out)@ + json_escaped(s@.take(k as int)));
        }
    }
    proof {
        assert(s@.take(n as int) =~= s@);
    }
}

/// The fixed system instruction sent with every polish request.
pub open spec fn spec_polish_instruction() -> Seq<u8> {
    "strip filler words, fix punctuation, keep casual tone, no trailing period, output only the cleaned text".spec_bytes()
}

/// The JSON body of a polish request: the configured model, the fixed
/// system instruction, the transcript as the user message, and a low
/// sampling temperature.
pub open spec fn spec_polish_request(model: Seq<u8>, transcript: Seq<u8>) -> Seq<u8> {
    "{\"model\":\"".spec_bytes() + json_escaped(model)
        + "\",\"messages\":[{\"role\":\"system\",\"content\":\"".spec_bytes() + json_escaped(
        spec_polish_instruction(),
    ) + "\"},{\"role\":\"user\",\"content\":\"".spec_bytes() + json_escaped(transcript)
        + "\"}],\"temperature\":0.2}".spec_bytes()
}

/// Builds the JSON body of a polish request for the given model name and
/// transcript.
pub fn polish_request_body(model: &Vec<u8>, transcript: &Vec<u8>) -> (r: Vec<u8>)
    ensures
        r@ == spec_polish_request(model@, transcript@),
{
    let mut out: Vec<u8> = Vec::new();
    out.extend_from_slice("{\"model\":\"".as_bytes());
    escape_json_into(&mut out, model.as_slice());
    out.extend_from_slice("\",\"messages\":[{\"role\":\"system\",\"content\":\"".as_bytes());
    escape_json_into(
        &mut out,
        "strip filler words, fix punctuation, keep casual tone, no trailing period, output only the cleaned text".as_bytes(),
    );
    out.extend_from_slice("\"},{\"role\":\"user\",\"content\":\"".as_bytes());
    escape_json_into(&mut out, transcript.as_slice());
    out.extend_from_slice("\"}],\"temperature\":0.2}".as_bytes());
    proof {
        assert(out@ =~= spec_polish_request(model@, transcript@));
    }
    out
}

/// The content of the first choice's message in a chat-completion JSON
/// document, when the document holds one. Named here; stated only through
/// the trusted extraction below.
pub uninterp spec fn json_choice_content(body: Seq<u8>) -> Option<Seq<u8>>;

/// Relies on serde_json: `from_slice` parses the document, `Value::get`
/// walks `choices`, index 0, `message`, `content`, and the match keeps the
/// content only when it is a JSON string. The result depends on the bytes
/// alone.
#[verifier::external_body]
fn json_choice_content_exec(body: &[u8]) -> (r: Option<Vec<u8>>)
    ensures
        r is Some <==> json_choice_content(body@) is Some,
        r is Some ==> r->0@ == json_choice_content(body@)->0,
{
    let v: serde_json::Value = match serde_json::from_slice(body) {
        Ok(v) => v,
        Err(_) => return None,
    };
    match v.get("choices").and_then(|c| c.get(0)).and_then(|c| c.get("message")).and_then(
        |m| m.get("content"),
    ) {
        Some(serde_json::Value::String(s)) => Some(s.clone().into_bytes()),
        _ => None,
    }
}

/// The rewritten text a polish response yields, `None` on any failure: a
/// failed call, a non-success status, or a document without a first-choice
/// message content string.
pub open spec fn spec_polished(ok: bool, body: Seq<u8>) -> Option<Seq<u8>> {
    if !ok {
        None
    } else {
        json_choice_content(body)
    }
}

/// Extracts the rewritten text from a polish response: `ok` says whether
/// the call succeeded with a success status, `body` is the response body.
pub fn polished_of_response(ok: bool, body: &Vec<u8>) -> (r: Option<Vec<u8>>)
    ensures
        r is Some <==> spec_polished(ok, body@) is Some,
        r is Some ==> r->0@ == spec_polished(ok, body@)->0,
{
    if !ok {
        return None;
    }
    json_choice_content_exec(body.as_slice())
}

/// The text to deliver: the polished text when polishing yielded one, else
/// the transcript unchanged.
pub open spec fn spec_final_text(transcript: Seq<u8>, polished: Option<Seq<u8>>) -> Seq<u8> {
    match polished {
        Some(p) => p,
        None => transcript,
    }
}

/// Chooses the text to deliver from the transcript and the polish outcome.
pub fn final_text(transcript: Vec<u8>, polished: Option<Vec<u8>>) -> (r: Vec<u8>)
    ensures
        r@ == spec_final_text(
            transcript@,
            match polished {
                Some(p) => Some(p@),
                None => None,
            },
        ),
{
    match polished {
        Some(p) => p,
        None => transcript,
    }
}

/// Polish failure is non-fatal and silent: whenever the polish call fails,
/// times out, or returns a document without usable content, the delivered
/// text equals the transcript verbatim.
pub proof fn lemma_polish_fallback(transcript: Seq<u8>, body: Seq<u8>)
    ensures
        spec_final_text(transcript, spec_polished(false, body)) == transcript,
        json_choice_content(body) is None ==> spec_final_text(
            transcript,
            spec_polished(true, body),
        ) == transcript,
{
}

/// The credential to use: the configuration file's content, trimmed, when
/// it is non-empty; otherwise the environment's value as it stands.
pub open spec fn spec_selected_key(file: Option<Seq<u8>>, env: Option<Seq<u8>>) -> Option<
    Seq<u8>,
> {
    match file {
        Some(c) => if spec_trimmed(c).len() > 0 {
            Some(spec_trimmed(c))
        } else {
            env
        },
        None => env,
    }
}

/// Selects the credential from the configuration file's content and the
/// environment's value, preferring a non-empty trimmed file.
pub fn select_api_key(file: Option<Vec<u8>>, env: Option<Vec<u8>>) -> (r: Option<Vec<u8>>)
    ensures
        ({
            let spec_r = spec_selected_key(
                match file {
                    Some(c) => Some(c@),
                    None => None,
                },
                match env {
                    Some(e) => Some(e@),
                    None => None,
                },
            );
            &&& r is Some <==> spec_r is Some
            &&& r is Some ==> r->0@ == spec_r->0
        }),
{
    match file {
        Some(c) => {
            let t = trim_bytes(&c);
            if t.len() > 0 {
                Some(t)
            } else {
                env
            }
        },
        None => env,
    }
}

} // verus!
