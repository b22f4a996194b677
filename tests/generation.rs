use std::str::FromStr;

use llm_functions::generation::{end_of_sequence, finish, on_sampled, Generation, GenerationError, Sampled};
use llm_functions::token_output_stream::TokenOutputStream;

fn tokenizer(with_end: bool) -> tokenizers::Tokenizer {
    let added = if with_end {
        r#"[{"id": 3, "content": "</s>", "single_word": false, "lstrip": false, "rstrip": false, "normalized": false, "special": true}]"#
    } else {
        "[]"
    };
    let vocab = if with_end {
        r#"{"he": 0, "llo": 1, "<unk>": 2, "</s>": 3}"#
    } else {
        r#"{"he": 0, "llo": 1, "<unk>": 2}"#
    };
    let json = format!(
        r#"{{"version": "1.0", "truncation": null, "padding": null, "added_tokens": {added}, "normalizer": null, "pre_tokenizer": null, "post_processor": null, "decoder": {{"type": "Fuse"}}, "model": {{"type": "WordLevel", "vocab": {vocab}, "unk_token": "<unk>"}}}}"#
    );
    tokenizers::Tokenizer::from_str(&json).unwrap()
}

#[test]
fn first_context_is_whole_prompt() {
    let g = Generation::new(vec![5, 6, 7], 4, 3);
    assert_eq!(g.context(), (vec![5, 6, 7], 0));
    assert!(!g.is_done());
}

#[test]
fn later_context_is_last_token() {
    let mut g = Generation::new(vec![5, 6, 7], 4, 3);
    assert_eq!(g.accept(9), Sampled::Emit(9));
    assert_eq!(g.context(), (vec![9], 3));
    assert_eq!(g.tokens(), &vec![5, 6, 7, 9]);
}

#[test]
fn penalty_window_includes_prompt() {
    let mut g = Generation::new(vec![1, 2, 3], 4, 0);
    g.accept(4);
    assert_eq!(g.penalty_window(2), vec![3, 4]);
    assert_eq!(g.penalty_window(64), vec![1, 2, 3, 4]);
    assert_eq!(g.penalty_window(0), Vec::<u32>::new());
}

#[test]
fn end_token_stops_the_run() {
    let mut g = Generation::new(vec![1], 10, 3);
    assert_eq!(g.accept(3), Sampled::End);
    assert!(g.is_done());
}

#[test]
fn budget_stops_the_run() {
    let mut g = Generation::new(vec![1], 2, 3);
    g.accept(7);
    assert!(!g.is_done());
    g.accept(8);
    assert!(g.is_done());
    assert_eq!(g.tokens().len(), 3);
}

#[test]
fn zero_budget_is_done_at_once() {
    let g = Generation::new(vec![1, 2], 0, 3);
    assert!(g.is_done());
}

#[test]
fn a_run_collects_decoded_text() {
    let mut stream = TokenOutputStream::new(tokenizer(true)).unwrap();
    let eos = end_of_sequence(&stream).unwrap();
    assert_eq!(eos, 3);
    let mut g = Generation::new(vec![0], 5, eos);
    let mut text = String::new();
    for t in [0u32, 1, 3] {
        if g.is_done() {
            break;
        }
        on_sampled(&mut g, &mut stream, t, &mut text).unwrap();
    }
    finish(&mut stream, &mut text).unwrap();
    assert!(g.is_done());
    assert_eq!(text, "hello");
    assert_eq!(stream.generated_tokens(), &vec![0, 1]);
}

#[test]
fn end_token_is_not_emitted() {
    let mut stream = TokenOutputStream::new(tokenizer(true)).unwrap();
    let mut g = Generation::new(vec![], 5, 3);
    let mut text = String::new();
    let r = on_sampled(&mut g, &mut stream, 3, &mut text).unwrap();
    assert_eq!(r, Sampled::End);
    assert_eq!(text, "");
    assert!(stream.generated_tokens().is_empty());
}

#[test]
fn missing_end_token_is_an_error() {
    let stream = TokenOutputStream::new(tokenizer(false)).unwrap();
    assert_eq!(end_of_sequence(&stream), Err(GenerationError::MissingEndToken));
}

#[test]
fn stream_hands_out_each_piece_once() {
    let mut stream = TokenOutputStream::new(tokenizer(true)).unwrap();
    assert_eq!(stream.next_token(0).unwrap(), Some("he".to_string()));
    assert_eq!(stream.next_token(1).unwrap(), Some("llo".to_string()));
    assert_eq!(stream.decode_rest().unwrap(), None);
    stream.clear();
    assert!(stream.generated_tokens().is_empty());
}

#[test]
fn accept_decoded_holds_back_partial_characters() {
    let mut stream = TokenOutputStream::new(tokenizer(true)).unwrap();
    assert_eq!(stream.accept_decoded("ab"), Some("ab".to_string()));
    assert_eq!(stream.accept_decoded("ab\u{FFFD}"), None);
    assert_eq!(stream.accept_decoded("abé"), Some("é".to_string()));
    assert_eq!(stream.accept_decoded("abé"), None);
    assert_eq!(stream.flush_decoded("abéz"), Some("z".to_string()));
}

#[test]
fn round_trip_of_pieces() {
    let decodes = ["h", "he", "he\u{FFFD}", "he\u{FFFD}", "heλ", "heλlo"];
    let full = "heλlo!";
    let mut stream = TokenOutputStream::new(tokenizer(true)).unwrap();
    let mut out = String::new();
    for d in decodes {
        if let Some(p) = stream.accept_decoded(d) {
            out.push_str(&p);
        }
    }
    if let Some(p) = stream.flush_decoded(full) {
        out.push_str(&p);
    }
    assert_eq!(out, full);
}

#[test]
fn zero_step_run_yields_no_text() {
    let mut stream = TokenOutputStream::new(tokenizer(true)).unwrap();
    let mut text = String::new();
    finish(&mut stream, &mut text).unwrap();
    assert_eq!(text, "");
    assert_eq!(stream.decode_rest().unwrap(), None);
}

#[test]
fn end_token_after_text_keeps_earlier_decoding() {
    let mut stream = TokenOutputStream::new(tokenizer(true)).unwrap();
    let mut g = Generation::new(vec![0], 5, 3);
    let mut text = String::new();
    assert_eq!(on_sampled(&mut g, &mut stream, 1, &mut text).unwrap(), Sampled::Emit(1));
    assert_eq!(on_sampled(&mut g, &mut stream, 3, &mut text).unwrap(), Sampled::End);
    finish(&mut stream, &mut text).unwrap();
    assert_eq!(text, "llo");
}

#[test]
fn unsupported_decoders_are_refused() {
    let json = r#"{"version": "1.0", "truncation": null, "padding": null, "added_tokens": [], "normalizer": null, "pre_tokenizer": null, "post_processor": null, "decoder": {"type": "Strip", "content": " ", "start": 0, "stop": 1}, "model": {"type": "WordLevel", "vocab": {"a": 0, "<unk>": 1}, "unk_token": "<unk>"}}"#;
    let t = tokenizers::Tokenizer::from_str(json).unwrap();
    assert!(!llm_functions::token_output_stream::supports_decoder(&t));
    assert!(TokenOutputStream::new(t).is_err());
}

#[test]
fn sequence_with_leading_strip_is_supported() {
    let json = r#"{"version": "1.0", "truncation": null, "padding": null, "added_tokens": [], "normalizer": null, "pre_tokenizer": null, "post_processor": null, "decoder": {"type": "Sequence", "decoders": [{"type": "ByteFallback"}, {"type": "Fuse"}, {"type": "Strip", "content": " ", "start": 1, "stop": 0}]}, "model": {"type": "WordLevel", "vocab": {"a": 0, "<unk>": 1}, "unk_token": "<unk>"}}"#;
    let t = tokenizers::Tokenizer::from_str(json).unwrap();
    assert!(llm_functions::token_output_stream::supports_decoder(&t));
    let mut s = TokenOutputStream::new(t).unwrap();
    assert_eq!(s.next_token(0).unwrap(), Some("a".to_string()));
}
