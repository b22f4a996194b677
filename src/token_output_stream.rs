//! Incremental detokenization: text is handed out token by token, and only
//! once it has been decoded into whole characters.
use vstd::prelude::*;
use vstd::string::*;

verus! {

#[verifier::external_type_specification]
#[verifier::external_body]
pub struct ExTokenizer(tokenizers::Tokenizer);

#[verifier::external_type_specification]
#[verifier::external_body]
pub struct ExDecoderWrapper(tokenizers::decoders::DecoderWrapper);

/// What kind of step a tokenizer's decoder is, as far as decoding safely
/// depends on it.
#[derive(Debug, Clone, Copy, PartialEq, Eq, Structural)]
pub enum DecoderStep {
    /// The BPE decoder, which fails on an empty list of tokens.
    Bpe,
    /// The strip decoder, cutting up to `start` leading and `stop` trailing
    /// characters.
    Strip { start: usize, stop: usize },
    /// A sequence of decoders.
    Sequence,
    /// Any other decoder.
    Other,
}

/// A step that decodes every list of tokens without failing: the strip
/// decoder indexes past a token shorter than its trailing cut, and the BPE
/// decoder fails on an empty list, which earlier steps or skipped special
/// tokens can produce; nested sequences are not looked into.
pub open spec fn step_safe(s: DecoderStep) -> bool {
    match s {
        DecoderStep::Bpe => false,
        DecoderStep::Strip { start, stop } => stop == 0,
        DecoderStep::Sequence => false,
        DecoderStep::Other => true,
    }
}

/// The decoder that `tokenizers::Tokenizer::get_decoder` gives.
pub uninterp spec fn tokenizer_decoder(t: tokenizers::Tokenizer) -> Option<tokenizers::decoders::DecoderWrapper>;

/// The decoders of a sequence decoder, as `Sequence::get_decoders` lists them.
pub uninterp spec fn sequence_parts(d: tokenizers::decoders::DecoderWrapper) -> Option<Seq<tokenizers::decoders::DecoderWrapper>>;

/// The kind of a decoder.
pub uninterp spec fn step_of(d: tokenizers::decoders::DecoderWrapper) -> DecoderStep;

/// Decoding with this tokenizer cannot fail on a non-empty list of ids: its
/// decoder, or each step of its sequence decoder, is safe.
pub open spec fn decoder_supported(t: tokenizers::Tokenizer) -> bool {
    match tokenizer_decoder(t) {
        None => true,
        Some(d) => match sequence_parts(d) {
            None => step_safe(step_of(d)),
            Some(ps) => forall|i: int| 0 <= i < ps.len() ==> step_safe(#[trigger] step_of(ps[i])),
        },
    }
}

/// Relies on `tokenizers::Tokenizer::get_decoder` to read a tokenizer's decoder.
#[verifier::external_body]
fn get_decoder(t: &tokenizers::Tokenizer) -> (r: Option<tokenizers::decoders::DecoderWrapper>)
    ensures
        r == tokenizer_decoder(*t),
{
    t.get_decoder().cloned()
}

/// Relies on `tokenizers::decoders::sequence::Sequence::get_decoders` to list
/// the steps of a sequence decoder; `None` for any other decoder.
#[verifier::external_body]
fn decoder_sequence(d: &tokenizers::decoders::DecoderWrapper) -> (r: Option<Vec<tokenizers::decoders::DecoderWrapper>>)
    ensures
        r is Some <==> sequence_parts(*d) is Some,
        r matches Some(v) ==> sequence_parts(*d) == Some(v@),
{
    match d {
        tokenizers::decoders::DecoderWrapper::Sequence(s) => Some(s.get_decoders().to_vec()),
        _ => None,
    }
}

/// Relies on the variants of `tokenizers::decoders::DecoderWrapper` to tell
/// a decoder's kind.
#[verifier::external_body]
fn decoder_step(d: &tokenizers::decoders::DecoderWrapper) -> (r: DecoderStep)
    ensures
        r == step_of(*d),
{
    match d {
        tokenizers::decoders::DecoderWrapper::BPE(_) => DecoderStep::Bpe,
        tokenizers::decoders::DecoderWrapper::Strip(s) => DecoderStep::Strip { start: s.start, stop: s.stop },
        tokenizers::decoders::DecoderWrapper::Sequence(_) => DecoderStep::Sequence,
        _ => DecoderStep::Other,
    }
}

/// Whether the tokenizer's decoder is one the stream supports.
pub fn supports_decoder(t: &tokenizers::Tokenizer) -> (r: bool)
    ensures
        r == decoder_supported(*t),
{
    match get_decoder(t) {
        None => true,
        Some(d) => match decoder_sequence(&d) {
            None => {
                let st = decoder_step(&d);
                match st {
                    DecoderStep::Bpe => false,
                    DecoderStep::Strip { start, stop } => stop == 0,
                    DecoderStep::Sequence => false,
                    DecoderStep::Other => true,
                }
            },
            Some(parts) => {
                let mut i: usize = 0;
                while i < parts.len()
                    invariant
                        i <= parts@.len(),
                        tokenizer_decoder(*t) == Some(d),
                        sequence_parts(d) == Some(parts@),
                        forall|k: int| 0 <= k < i ==> step_safe(#[trigger] step_of(parts@[k])),
                    decreases parts@.len() - i,
                {
                    let st = decoder_step(&parts[i]);
                    let ok = match st {
                        DecoderStep::Bpe => false,
                        DecoderStep::Strip { start, stop } => stop == 0,
                        DecoderStep::Sequence => false,
                        DecoderStep::Other => true,
                    };
                    assert(ok == step_safe(step_of(parts@[i as int])));
                    if !ok {
                        assert(!step_safe(step_of(parts@[i as int])));
                        return false;
                    }
                    i = i + 1;
                }
                true
            },
        },
    }
}

/// The character a tokenizer puts where bytes do not yet form a whole
/// character.
pub open spec fn replacement_char() -> char {
    '\u{FFFD}'
}

/// What a stream that has handed out `prev` characters does when the tokens
/// so far decode to `d`: the new watermark, and the text it hands out.
pub open spec fn reveal_step(prev: nat, d: Seq<char>) -> (nat, Option<Seq<char>>) {
    if d.len() > prev && d.last() != replacement_char() {
        (d.len(), Some(d.subrange(prev as int, d.len() as int)))
    } else {
        (prev, None)
    }
}

/// What the final flush hands out.
pub open spec fn rest_step(prev: nat, d: Seq<char>) -> Option<Seq<char>> {
    if d.len() > prev {
        Some(d.subrange(prev as int, d.len() as int))
    } else {
        None
    }
}

pub open spec fn text_of(o: Option<Seq<char>>) -> Seq<char> {
    match o {
        Some(t) => t,
        None => Seq::empty(),
    }
}

pub open spec fn opt_view(o: Option<String>) -> Option<Seq<char>> {
    match o {
        Some(t) => Some(t@),
        None => None,
    }
}

/// Watermark after the decodes `ds`, one per accepted token, from `prev`.
pub open spec fn watermark_after(prev: nat, ds: Seq<Seq<char>>) -> nat
    decreases ds.len(),
{
    if ds.len() == 0 {
        prev
    } else {
        reveal_step(watermark_after(prev, ds.drop_last()), ds.last()).0
    }
}

/// All text handed out for the decodes `ds`, one per accepted token, from `prev`.
pub open spec fn emitted_after(prev: nat, ds: Seq<Seq<char>>) -> Seq<char>
    decreases ds.len(),
{
    if ds.len() == 0 {
        Seq::empty()
    } else {
        emitted_after(prev, ds.drop_last()) + text_of(
            reveal_step(watermark_after(prev, ds.drop_last()), ds.last()).1,
        )
    }
}

/// The decoding `d` ends in a whole character.
pub open spec fn settled(d: Seq<char>) -> bool {
    d.len() > 0 && d.last() != replacement_char()
}

/// `d` is a prefix of `full`.
pub open spec fn is_prefix(d: Seq<char>, full: Seq<char>) -> bool {
    d.len() <= full.len() && d == full.subrange(0, d.len() as int)
}

proof fn lemma_emitted_is_prefix(ds: Seq<Seq<char>>, full: Seq<char>)
    requires
        forall|i: int| 0 <= i < ds.len() && settled(#[trigger] ds[i]) ==> is_prefix(ds[i], full),
    ensures
        watermark_after(0, ds) <= full.len(),
        emitted_after(0, ds) == full.subrange(0, watermark_after(0, ds) as int),
    decreases ds.len(),
{
    if ds.len() > 0 {
        let init = ds.drop_last();
        assert forall|i: int| 0 <= i < init.len() && settled(#[trigger] init[i]) implies is_prefix(init[i], full) by {
            assert(init[i] == ds[i]);
        }
        lemma_emitted_is_prefix(init, full);
        let w = watermark_after(0, init);
        let d = ds.last();
        if d.len() > w && d.last() != replacement_char() {
            assert(settled(ds[ds.len() - 1]));
            assert(d.subrange(w as int, d.len() as int) =~= full.subrange(w as int, d.len() as int));
            assert(full.subrange(0, w as int) + full.subrange(w as int, d.len() as int)
                =~= full.subrange(0, d.len() as int));
        } else {
            assert(emitted_after(0, ds) =~= emitted_after(0, init));
        }
    }
}

/// Round trip of the stream: when each decoding after an accepted token that
/// ends in a whole character is a prefix of the decoding `full` of all of
/// them (one that ends in an incomplete character need not be), the text handed out token
/// by token, followed by what the final flush hands out, is exactly `full`.
pub proof fn lemma_round_trip(ds: Seq<Seq<char>>, full: Seq<char>)
    requires
        forall|i: int| 0 <= i < ds.len() && settled(#[trigger] ds[i]) ==> is_prefix(ds[i], full),
    ensures
        emitted_after(0, ds) + text_of(rest_step(watermark_after(0, ds), full)) == full,
{
    lemma_emitted_is_prefix(ds, full);
    let w = watermark_after(0, ds);
    if full.len() > w {
        assert(full.subrange(0, w as int) + full.subrange(w as int, full.len() as int) =~= full);
    } else {
        assert(full.subrange(0, w as int) + Seq::<char>::empty() =~= full);
    }
}

/// The stream's history agrees with its watermark: its decodings and the
/// text handed out so far are those `watermark_after` and `emitted_after`
/// describe.
pub proof fn lemma_stream_round_trip(s: TokenOutputStream, full: Seq<char>)
    requires
        s.wf(),
        forall|i: int|
            0 <= i < s.decodings().len() && settled(#[trigger] s.decodings()[i]) ==> is_prefix(
                s.decodings()[i],
                full,
            ),
    ensures
        s.emitted() + text_of(rest_step(s.watermark(), full)) == full,
{
    lemma_round_trip(s.decodings(), full);
}

/// What `tokenizers::Tokenizer::decode` makes of the ids `ids` (special
/// tokens skipped where `skip_special`), or `None` where it reports an error.
pub uninterp spec fn decode_of(tokenizer: tokenizers::Tokenizer, ids: Seq<u32>, skip_special: bool) -> Option<Seq<char>>;

/// The id that `tokenizers::Tokenizer::token_to_id` gives `token`.
pub uninterp spec fn token_id_of(tokenizer: tokenizers::Tokenizer, token: Seq<char>) -> Option<u32>;

/// Relies on `tokenizers::Tokenizer::decode` to turn token ids into text;
/// `None` where the tokenizer reports an error. Left out: an empty list, and
/// tokenizers whose decoder is not supported (see `decoder_supported`).
#[verifier::external_body]
fn decode_ids(tokenizer: &tokenizers::Tokenizer, ids: &[u32], skip_special: bool) -> (r: Option<String>)
    requires
        ids@.len() > 0,
        decoder_supported(*tokenizer),
    ensures
        r is Some <==> decode_of(*tokenizer, ids@, skip_special) is Some,
        r matches Some(t) ==> decode_of(*tokenizer, ids@, skip_special) == Some(t@),
{
    tokenizer.decode(ids, skip_special).ok()
}

/// Relies on `tokenizers::Tokenizer::token_to_id` to look up a token of the
/// vocabulary.
#[verifier::external_body]
fn lookup_token(tokenizer: &tokenizers::Tokenizer, token: &str) -> (r: Option<u32>)
    ensures
        r == token_id_of(*tokenizer, token@),
{
    tokenizer.token_to_id(token)
}

/// The tokenizer could not decode the accepted tokens.
#[derive(Debug, PartialEq, Eq, Structural)]
pub struct DecodeError;

/// The tokenizer's decoder is not one the stream supports.
#[derive(Debug, PartialEq, Eq, Structural)]
pub struct UnsupportedDecoder;

/// The decoder state of one generation run: every accepted token, and how
/// many characters of their decoding have been handed out.
pub struct TokenOutputStream {
    tokenizer: tokenizers::Tokenizer,
    tokens: Vec<u32>,
    prev_len: usize,
    decodes: Ghost<Seq<Seq<char>>>,
    handed_out: Ghost<Seq<char>>,
}

/// The stream decodes with special tokens skipped.
pub open spec fn skip_special() -> bool {
    true
}

impl TokenOutputStream {
    /// A stream over `tokenizer`, where its decoder is supported.
    pub fn new(tokenizer: tokenizers::Tokenizer) -> (r: Result<Self, UnsupportedDecoder>)
        ensures
            r is Ok <==> decoder_supported(tokenizer),
            r matches Ok(s) ==> s.wf() && s.tok() == tokenizer && s.tokens_view() == Seq::<u32>::empty()
                && s.watermark() == 0 && s.decodings() == Seq::<Seq<char>>::empty(),
    {
        if !supports_decoder(&tokenizer) {
            return Err(UnsupportedDecoder);
        }
        Ok(TokenOutputStream {
            tokenizer,
            tokens: Vec::new(),
            prev_len: 0,
            decodes: Ghost(Seq::empty()),
            handed_out: Ghost(Seq::empty()),
        })
    }

    pub closed spec fn tok(&self) -> tokenizers::Tokenizer {
        self.tokenizer
    }

    pub closed spec fn tokens_view(&self) -> Seq<u32> {
        self.tokens@
    }

    pub closed spec fn watermark(&self) -> nat {
        self.prev_len as nat
    }

    /// Every decoding the stream was given since the last reset, in order.
    pub closed spec fn decodings(&self) -> Seq<Seq<char>> {
        self.decodes@
    }

    /// All text handed out token by token since the last reset.
    pub closed spec fn emitted(&self) -> Seq<char> {
        self.handed_out@
    }

    pub closed spec fn wf(&self) -> bool {
        &&& decoder_supported(self.tokenizer)
        &&& self.prev_len as nat == watermark_after(0, self.decodes@)
        &&& self.handed_out@ == emitted_after(0, self.decodes@)
    }

    /// The tokenizer's decoding of every accepted token.
    pub open spec fn decoding(&self) -> Option<Seq<char>> {
        decode_of(self.tok(), self.tokens_view(), skip_special())
    }

    pub fn tokenizer(&self) -> (r: &tokenizers::Tokenizer)
        ensures
            *r == self.tok(),
    {
        &self.tokenizer
    }

    /// The id of `token` in the tokenizer's vocabulary.
    pub fn get_token(&self, token: &str) -> (r: Option<u32>)
        ensures
            r == token_id_of(self.tok(), token@),
    {
        lookup_token(&self.tokenizer, token)
    }

    /// The tokens accepted since the last reset.
    pub fn generated_tokens(&self) -> (r: &Vec<u32>)
        ensures
            r@ == self.tokens_view(),
    {
        &self.tokens
    }

    /// Starts a new run: no tokens, nothing handed out.
    pub fn clear(&mut self)
        requires
            old(self).wf(),
        ensures
            final(self).wf(),
            final(self).tok() == old(self).tok(),
            final(self).tokens_view() == Seq::<u32>::empty(),
            final(self).watermark() == 0,
            final(self).decodings() == Seq::<Seq<char>>::empty(),
    {
        self.tokens = Vec::new();
        self.prev_len = 0;
        self.decodes = Ghost(Seq::empty());
        self.handed_out = Ghost(Seq::empty());
    }

    /// Given the decoding `decoded` of all accepted tokens, hands out the
    /// characters past the watermark, once they end in a whole character.
    pub fn accept_decoded(&mut self, decoded: &str) -> (r: Option<String>)
        requires
            old(self).wf(),
        ensures
            final(self).wf(),
            final(self).tok() == old(self).tok(),
            final(self).tokens_view() == old(self).tokens_view(),
            final(self).watermark() == reveal_step(old(self).watermark(), decoded@).0,
            reveal_step(old(self).watermark(), decoded@).1 == opt_view(r),
            final(self).decodings() == old(self).decodings().push(decoded@),
            final(self).emitted() == old(self).emitted() + text_of(opt_view(r)),
    {
        let ghost ds = self.decodes@.push(decoded@);
        proof {
            assert(ds.drop_last() =~= self.decodes@);
        }
        let n = decoded.unicode_len();
        let r = if n > self.prev_len && decoded.get_char(n - 1) != '\u{FFFD}' {
            let piece = String::from_str(decoded.substring_char(self.prev_len, n));
            self.prev_len = n;
            Some(piece)
        } else {
            None
        };
        self.decodes = Ghost(ds);
        self.handed_out = Ghost(self.handed_out@ + text_of(opt_view(r)));
        r
    }

    /// Given the decoding `decoded` of all accepted tokens at the end of a
    /// run, hands out every character past the watermark.
    pub fn flush_decoded(&mut self, decoded: &str) -> (r: Option<String>)
        ensures
            final(self).tok() == old(self).tok(),
            final(self).tokens_view() == old(self).tokens_view(),
            rest_step(old(self).watermark(), decoded@) == opt_view(r),
    {
        let n = decoded.unicode_len();
        if n > self.prev_len {
            let piece = String::from_str(decoded.substring_char(self.prev_len, n));
            self.prev_len = n;
            Some(piece)
        } else {
            None
        }
    }

    /// Accepts `token`, decodes every accepted token afresh, and hands out
    /// what that reveals.
    pub fn next_token(&mut self, token: u32) -> (r: Result<Option<String>, DecodeError>)
        requires
            old(self).wf(),
        ensures
            final(self).wf(),
            final(self).tok() == old(self).tok(),
            final(self).tokens_view() == old(self).tokens_view().push(token),
            r is Ok <==> final(self).decoding() is Some,
            r is Err ==> final(self).watermark() == old(self).watermark() && final(self).emitted()
                == old(self).emitted() && final(self).decodings() == old(self).decodings(),
            r matches Ok(piece) ==> reveal_step(old(self).watermark(), final(self).decoding()->Some_0)
                == (final(self).watermark(), opt_view(piece)) && final(self).decodings() == old(
                self,
            ).decodings().push(final(self).decoding()->Some_0) && final(self).emitted() == old(
                self,
            ).emitted() + text_of(opt_view(piece)),
    {
        self.tokens.push(token);
        match decode_ids(&self.tokenizer, self.tokens.as_slice(), true) {
            None => Err(DecodeError),
            Some(text) => {
                let r = self.accept_decoded(text.as_str());
                Ok(r)
            },
        }
    }

    /// Decodes every accepted token and hands out what was held back; with
    /// no token accepted there is nothing to hand out.
    pub fn decode_rest(&mut self) -> (r: Result<Option<String>, DecodeError>)
        requires
            old(self).wf(),
        ensures
            final(self).tok() == old(self).tok(),
            final(self).tokens_view() == old(self).tokens_view(),
            old(self).tokens_view().len() == 0 ==> r == Ok::<Option<String>, DecodeError>(None),
            old(self).tokens_view().len() > 0 ==> (r is Ok <==> old(self).decoding() is Some),
            old(self).tokens_view().len() > 0 && r is Ok ==> opt_view(r->Ok_0) == rest_step(
                old(self).watermark(),
                old(self).decoding()->Some_0,
            ),
    {
        if self.tokens.len() == 0 {
            return Ok(None);
        }
        match decode_ids(&self.tokenizer, self.tokens.as_slice(), true) {
            None => Err(DecodeError),
            Some(text) => {
                let r = self.flush_decoded(text.as_str());
                Ok(r)
            },
        }
    }
}

} // verus!
