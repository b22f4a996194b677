//! The bookkeeping of the sampling loop: which tokens the model sees at each
//! step, which tokens the repeat penalty looks back on, and when the loop
//! stops. The model's forward pass and the sampling of a token are done by
//! the caller, which reports each sampled token back.
use crate::token_output_stream::{
    is_prefix, lemma_stream_round_trip, opt_view, rest_step, settled, text_of, token_id_of,
    TokenOutputStream,
};
use vstd::prelude::*;
use vstd::string::*;

verus! {

/// What a sampled token means for the run.
#[derive(Debug, PartialEq, Eq, Structural)]
pub enum Sampled {
    /// The end-of-sequence token: the run is over and nothing is emitted.
    End,
    /// An ordinary token, to be handed to the decoder.
    Emit(u32),
}

/// One generation run: the prompt's tokens followed by the sampled ones.
pub struct Generation {
    tokens: Vec<u32>,
    prompt_len: usize,
    steps: usize,
    max_tokens: usize,
    eos: u32,
    ended: bool,
}

/// The tokens that the model sees at step `steps` of a run whose history is
/// `tokens`, and the position of the first of them: the whole prompt at the
/// first step, the last token after that.
pub open spec fn context_spec(tokens: Seq<u32>, steps: nat) -> (Seq<u32>, nat) {
    if steps == 0 || tokens.len() == 0 {
        (tokens, 0)
    } else {
        (tokens.subrange(tokens.len() - 1, tokens.len() as int), (tokens.len() - 1) as nat)
    }
}

/// The last `n` tokens of the history, or all of it where it is shorter.
pub open spec fn window_spec(tokens: Seq<u32>, n: nat) -> Seq<u32> {
    if tokens.len() <= n {
        tokens
    } else {
        tokens.subrange(tokens.len() - n, tokens.len() as int)
    }
}

/// The tokens of `v` from `start` up to `end`.
fn copy_range(v: &Vec<u32>, start: usize, end: usize) -> (r: Vec<u32>)
    requires
        start <= end <= v@.len(),
    ensures
        r@ == v@.subrange(start as int, end as int),
{
    let mut out: Vec<u32> = Vec::new();
    let mut i: usize = start;
    while i < end
        invariant
            start <= i <= end <= v@.len(),
            out@ == v@.subrange(start as int, i as int),
        decreases end - i,
    {
        out.push(v[i]);
        proof {
            assert(v@.subrange(start as int, i + 1) =~= v@.subrange(start as int, i as int).push(
                v@[i as int],
            ));
        }
        i = i + 1;
    }
    out
}

impl Generation {
    pub closed spec fn history(&self) -> Seq<u32> {
        self.tokens@
    }

    pub closed spec fn prompt_length(&self) -> nat {
        self.prompt_len as nat
    }

    pub closed spec fn step_count(&self) -> nat {
        self.steps as nat
    }

    pub closed spec fn budget(&self) -> nat {
        self.max_tokens as nat
    }

    pub closed spec fn end_token(&self) -> u32 {
        self.eos
    }

    pub closed spec fn has_ended(&self) -> bool {
        self.ended
    }

    /// The tokens sampled so far, the end token included if it came.
    pub open spec fn sampled(&self) -> Seq<u32> {
        self.history().subrange(self.prompt_length() as int, self.history().len() as int)
    }

    pub closed spec fn wf(&self) -> bool {
        &&& self.prompt_len <= self.tokens@.len()
        &&& self.tokens@.len() == self.prompt_len + self.steps
        &&& self.steps <= self.max_tokens
        &&& (self.ended ==> self.steps > 0 && self.tokens@.last() == self.eos)
        &&& forall|i: int|
            self.prompt_len <= i < self.tokens@.len() && #[trigger] self.tokens@[i] == self.eos
                ==> self.ended && i == self.tokens@.len() - 1
    }

    /// The run is over: the end token came or the budget is spent.
    pub open spec fn done_spec(&self) -> bool {
        self.has_ended() || self.step_count() >= self.budget()
    }

    /// Starts a run on the prompt's tokens, with at most `max_tokens` steps,
    /// stopping at `eos`.
    pub fn new(prompt_tokens: Vec<u32>, max_tokens: usize, eos: u32) -> (r: Self)
        ensures
            r.wf(),
            r.history() == prompt_tokens@,
            r.prompt_length() == prompt_tokens@.len(),
            r.step_count() == 0,
            r.budget() == max_tokens,
            r.end_token() == eos,
            !r.has_ended(),
    {
        let prompt_len = prompt_tokens.len();
        Generation { tokens: prompt_tokens, prompt_len, steps: 0, max_tokens, eos, ended: false }
    }

    pub fn is_done(&self) -> (r: bool)
        ensures
            r == self.done_spec(),
    {
        self.ended || self.steps >= self.max_tokens
    }

    /// The whole history: the prompt's tokens, then the sampled ones.
    pub fn tokens(&self) -> (r: &Vec<u32>)
        ensures
            r@ == self.history(),
    {
        &self.tokens
    }

    /// The tokens to hand to the model at this step, and the position of the
    /// first of them.
    pub fn context(&self) -> (r: (Vec<u32>, usize))
        ensures
            (r.0@, r.1 as nat) == context_spec(self.history(), self.step_count()),
    {
        let n = self.tokens.len();
        let start: usize = if self.steps == 0 || n == 0 {
            0
        } else {
            n - 1
        };
        let ctxt = copy_range(&self.tokens, start, n);
        proof {
            if start == 0 {
                assert(self.tokens@.subrange(0, n as int) =~= self.tokens@);
            }
        }
        (ctxt, start)
    }

    /// The last `repeat_last_n` tokens of the history, prompt included, on
    /// which the repeat penalty acts.
    pub fn penalty_window(&self, repeat_last_n: usize) -> (r: Vec<u32>)
        ensures
            r@ == window_spec(self.history(), repeat_last_n as nat),
    {
        let n = self.tokens.len();
        let start: usize = if n <= repeat_last_n {
            0
        } else {
            n - repeat_last_n
        };
        let w = copy_range(&self.tokens, start, n);
        proof {
            if start == 0 {
                assert(self.tokens@.subrange(0, n as int) =~= self.tokens@);
            }
        }
        w
    }

    /// Records the token sampled at this step.
    pub fn accept(&mut self, token: u32) -> (r: Sampled)
        requires
            old(self).wf(),
            !old(self).done_spec(),
        ensures
            final(self).wf(),
            final(self).history() == old(self).history().push(token),
            final(self).prompt_length() == old(self).prompt_length(),
            final(self).step_count() == old(self).step_count() + 1,
            final(self).budget() == old(self).budget(),
            final(self).end_token() == old(self).end_token(),
            final(self).has_ended() == (token == old(self).end_token()),
            r == (if token == old(self).end_token() {
                Sampled::End
            } else {
                Sampled::Emit(token)
            }),
    {
        self.tokens.push(token);
        self.steps = self.steps + 1;
        if token == self.eos {
            self.ended = true;
            Sampled::End
        } else {
            Sampled::Emit(token)
        }
    }
}

/// Why a run failed.
#[derive(Debug, PartialEq, Eq, Structural)]
pub enum GenerationError {
    /// The vocabulary has no end-of-sequence token.
    MissingEndToken,
    /// The tokenizer could not decode the sampled tokens.
    Decode,
}

/// The end-of-sequence token of the stream's vocabulary; without it a run
/// has no stop condition.
pub fn end_of_sequence(stream: &TokenOutputStream) -> (r: Result<u32, GenerationError>)
    ensures
        r == (match token_id_of(stream.tok(), "</s>"@) {
            Some(t) => Ok::<u32, GenerationError>(t),
            None => Err(GenerationError::MissingEndToken),
        }),
{
    match stream.get_token("</s>") {
        Some(t) => Ok(t),
        None => Err(GenerationError::MissingEndToken),
    }
}

/// One step of a run after the token `token` was sampled: it is recorded,
/// and unless it ends the run it goes to the decoder, whose text is appended
/// to `text`. Text and decoder agree before (`text` is what the decoder
/// handed out) and after.
pub fn on_sampled(
    g: &mut Generation,
    stream: &mut TokenOutputStream,
    token: u32,
    text: &mut String,
) -> (r: Result<Sampled, GenerationError>)
    requires
        old(g).wf(),
        !old(g).done_spec(),
        old(stream).wf(),
    ensures
        final(g).wf(),
        final(stream).wf(),
        final(g).history() == old(g).history().push(token),
        final(g).prompt_length() == old(g).prompt_length(),
        final(g).step_count() == old(g).step_count() + 1,
        final(g).budget() == old(g).budget(),
        final(g).end_token() == old(g).end_token(),
        final(g).has_ended() == (token == old(g).end_token()),
        final(stream).tok() == old(stream).tok(),
        r matches Err(e) ==> e == GenerationError::Decode,
        token == old(g).end_token() ==> r == Ok::<Sampled, GenerationError>(Sampled::End)
            && final(text)@ == old(text)@ && *final(stream) == *old(stream),
        token != old(g).end_token() ==> final(stream).tokens_view() == old(
            stream,
        ).tokens_view().push(token),
        token != old(g).end_token() ==> (r is Ok <==> final(stream).decoding() is Some),
        r is Ok ==> final(text)@ == old(text)@ + (final(stream).emitted().subrange(
            old(stream).emitted().len() as int,
            final(stream).emitted().len() as int,
        )) && old(stream).emitted().len() <= final(stream).emitted().len(),
        r is Ok ==> old(stream).emitted() == final(stream).emitted().subrange(
            0,
            old(stream).emitted().len() as int,
        ),
{
    match g.accept(token) {
        Sampled::End => {
            assert(stream.emitted().subrange(0, stream.emitted().len() as int) =~= stream.emitted());
            assert(stream.emitted().subrange(stream.emitted().len() as int, stream.emitted().len() as int) =~= Seq::<char>::empty());
            assert(text@ + Seq::<char>::empty() =~= text@);
            Ok(Sampled::End)
        },
        Sampled::Emit(t) => {
            let ghost e0 = stream.emitted();
            match stream.next_token(t) {
                Err(_) => Err(GenerationError::Decode),
                Ok(piece) => {
                    let ghost p = text_of(opt_view(piece));
                    match piece {
                        Some(p) => {
                            text.append(p.as_str());
                        },
                        None => {},
                    }
                    assert(stream.emitted() == e0 + p);
                    assert(stream.emitted().subrange(e0.len() as int, stream.emitted().len() as int) =~= p);
                    assert(stream.emitted().subrange(0, e0.len() as int) =~= e0);
                    Ok(Sampled::Emit(t))
                },
            }
        },
    }
}

/// The end of a run: what the decoder held back is appended to `text`.
pub fn finish(stream: &mut TokenOutputStream, text: &mut String) -> (r: Result<(), GenerationError>)
    requires
        old(stream).wf(),
    ensures
        old(text)@ == old(stream).emitted() && old(stream).tokens_view().len() > 0 && r is Ok
            && (forall|i: int|
            0 <= i < old(stream).decodings().len() && settled(#[trigger] old(stream).decodings()[i])
                ==> is_prefix(old(stream).decodings()[i], old(stream).decoding()->Some_0))
            ==> final(text)@ == old(stream).decoding()->Some_0,
        final(stream).tok() == old(stream).tok(),
        final(stream).tokens_view() == old(stream).tokens_view(),
        r is Err ==> final(text)@ == old(text)@,
        old(stream).tokens_view().len() == 0 ==> r is Ok && final(text)@ == old(text)@,
        old(stream).tokens_view().len() > 0 ==> (r is Ok <==> old(stream).decoding() is Some),
        old(stream).tokens_view().len() > 0 && r is Ok ==> final(text)@ == old(text)@ + text_of(
            rest_step(old(stream).watermark(), old(stream).decoding()->Some_0),
        ),
{
    match stream.decode_rest() {
        Err(_) => Err(GenerationError::Decode),
        Ok(piece) => {
            match piece {
                Some(p) => {
                    text.append(p.as_str());
                },
                None => {},
            }
            assert(text_of(opt_view(piece)) == Seq::<char>::empty() ==> old(text)@ + Seq::<char>::empty() =~= old(text)@);
            proof {
                if old(stream).tokens_view().len() > 0 && old(text)@ == old(stream).emitted() {
                    if forall|i: int|
                        0 <= i < old(stream).decodings().len() && settled(#[trigger] old(stream).decodings()[i])
                            ==> is_prefix(old(stream).decodings()[i], old(stream).decoding()->Some_0) {
                        lemma_stream_round_trip(*old(stream), old(stream).decoding()->Some_0);
                    }
                }
            }
            Ok(())
        },
    }
}

/// The budget holds: a run never samples more tokens than it was allowed,
/// whether or not the end token came.
pub proof fn lemma_budget(g: Generation)
    requires
        g.wf(),
    ensures
        g.history().len() == g.prompt_length() + g.step_count(),
        g.sampled().len() == g.step_count(),
        g.sampled().len() <= g.budget(),
        g.done_spec() ==> g.has_ended() || g.sampled().len() == g.budget(),
        forall|i: int|
            0 <= i < g.sampled().len() - 1 ==> #[trigger] g.sampled()[i] != g.end_token(),
        g.has_ended() <==> g.sampled().len() > 0 && g.sampled().last() == g.end_token(),
{
    assert forall|i: int| 0 <= i < g.sampled().len() - 1 implies #[trigger] g.sampled()[i]
        != g.end_token() by {
        assert(g.sampled()[i] == g.tokens@[g.prompt_len + i]);
    }
    if g.sampled().len() > 0 && g.sampled().last() == g.end_token() {
        assert(g.tokens@[g.tokens@.len() - 1] == g.eos);
    }
}

} // verus!
