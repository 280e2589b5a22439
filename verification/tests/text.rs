use fnkey::text::{
    extract_transcript, final_text, polish_request_body, polished_of_response, select_api_key,
    trim_bytes, TranscribeError,
};

#[test]
fn plain_body_is_the_transcript() {
    let body = b"hello world".to_vec();
    assert_eq!(extract_transcript(true, &body), Ok(b"hello world".to_vec()));
}

#[test]
fn plain_body_is_trimmed() {
    let body = b"  hello world \n".to_vec();
    assert_eq!(extract_transcript(true, &body), Ok(b"hello world".to_vec()));
}

#[test]
fn json_body_yields_text_field() {
    let body = b"{\"text\":\"hello world\"}".to_vec();
    assert_eq!(extract_transcript(true, &body), Ok(b"hello world".to_vec()));
}

#[test]
fn json_body_with_leading_whitespace() {
    let body = b"  {\"text\":\"hi\"} ".to_vec();
    assert_eq!(extract_transcript(true, &body), Ok(b"hi".to_vec()));
}

#[test]
fn json_without_text_field_is_malformed() {
    let body = b"{\"nope\":1}".to_vec();
    assert_eq!(extract_transcript(true, &body), Err(TranscribeError::Malformed));
}

#[test]
fn json_with_nonstring_text_is_malformed() {
    let body = b"{\"text\":5}".to_vec();
    assert_eq!(extract_transcript(true, &body), Err(TranscribeError::Malformed));
}

#[test]
fn unparseable_json_is_malformed() {
    let body = b"{\"text\":".to_vec();
    assert_eq!(extract_transcript(true, &body), Err(TranscribeError::Malformed));
}

#[test]
fn failed_call_is_an_error() {
    let body = b"hello world".to_vec();
    assert_eq!(extract_transcript(false, &body), Err(TranscribeError::Http));
}

#[test]
fn empty_transcript_aborts() {
    assert_eq!(extract_transcript(true, &b"".to_vec()), Err(TranscribeError::Empty));
    assert_eq!(extract_transcript(true, &b"  \n ".to_vec()), Err(TranscribeError::Empty));
    assert_eq!(
        extract_transcript(true, &b"{\"text\":\"\"}".to_vec()),
        Err(TranscribeError::Empty)
    );
}

#[test]
fn trim_handles_all_ascii_whitespace() {
    assert_eq!(trim_bytes(&b"\t\r\n a b \x0b\x0c".to_vec()), b"a b".to_vec());
    assert_eq!(trim_bytes(&b"".to_vec()), Vec::<u8>::new());
    assert_eq!(trim_bytes(&b"x".to_vec()), b"x".to_vec());
}

#[test]
fn polish_request_is_exact_json() {
    let body = polish_request_body(&b"gpt-model".to_vec(), &b"some \"quoted\"\ntext".to_vec());
    let expected = "{\"model\":\"gpt-model\",\"messages\":[{\"role\":\"system\",\"content\":\"strip filler words, fix punctuation, keep casual tone, no trailing period, output only the cleaned text\"},{\"role\":\"user\",\"content\":\"some \\\"quoted\\\"\\ntext\"}],\"temperature\":0.2}";
    assert_eq!(String::from_utf8(body).unwrap(), expected);
    // The body the builder makes is itself valid JSON.
    let v: serde_json::Value = serde_json::from_str(expected).unwrap();
    assert_eq!(v["messages"][1]["content"], "some \"quoted\"\ntext");
}

#[test]
fn escapes_control_bytes() {
    let body = polish_request_body(&b"m".to_vec(), &b"a\x01b\x1fc".to_vec());
    let s = String::from_utf8(body).unwrap();
    assert!(s.contains("a\\u0001b\\u001fc"), "{s}");
}

#[test]
fn polish_response_yields_first_choice_content() {
    let body = b"{\"choices\":[{\"message\":{\"content\":\"clean text\"}}]}".to_vec();
    assert_eq!(polished_of_response(true, &body), Some(b"clean text".to_vec()));
}

#[test]
fn polish_failures_yield_nothing() {
    let good = b"{\"choices\":[{\"message\":{\"content\":\"x\"}}]}".to_vec();
    assert_eq!(polished_of_response(false, &good), None);
    assert_eq!(polished_of_response(true, &b"{\"choices\":[]}".to_vec()), None);
    assert_eq!(polished_of_response(true, &b"{}".to_vec()), None);
    assert_eq!(polished_of_response(true, &b"not json".to_vec()), None);
    assert_eq!(
        polished_of_response(true, &b"{\"choices\":[{\"message\":{}}]}".to_vec()),
        None
    );
}

#[test]
fn polish_failure_falls_back_to_transcript() {
    let transcript = b"the original words".to_vec();
    let polished = polished_of_response(true, &b"garbage".to_vec());
    assert_eq!(polished, None);
    assert_eq!(final_text(transcript.clone(), polished), transcript);
}

#[test]
fn polished_text_replaces_transcript() {
    let delivered = final_text(b"raw".to_vec(), Some(b"clean".to_vec()));
    assert_eq!(delivered, b"clean".to_vec());
}

#[test]
fn api_key_prefers_nonempty_file() {
    assert_eq!(
        select_api_key(Some(b" key-from-file \n".to_vec()), Some(b"env-key".to_vec())),
        Some(b"key-from-file".to_vec())
    );
    assert_eq!(
        select_api_key(Some(b"  \n".to_vec()), Some(b"env-key".to_vec())),
        Some(b"env-key".to_vec())
    );
    assert_eq!(select_api_key(None, Some(b"env-key".to_vec())), Some(b"env-key".to_vec()));
    assert_eq!(select_api_key(Some(b"\n".to_vec()), None), None);
    assert_eq!(select_api_key(None, None), None);
}
