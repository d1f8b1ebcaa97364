//! Generating text: a prompt is encoded and passed through the model, and tokens
//! are chosen one by one until the text ends or is long enough. What was generated
//! before is remembered until the engine is reset.
use crate::matrix;
use crate::model::{
    lemma_first_room, lemma_less_room, lemma_more_room, lemma_room, QwenModel, QwenModelView,
};
use crate::passes;
use crate::roundtrip;
use crate::sampling;
use crate::sampling::{sample, SamplingConfig};
use crate::ranking;
use crate::scalar::{functional, less_than, Scalar};
use crate::tensor::TensorView;
use crate::text;
use crate::tokenizer;
use crate::tokenizer::{Tokenizer, TokenizerView};
use vstd::prelude::*;

verus! {

/// What an engine holds.
#[verifier::ext_equal]
pub struct EngineView<T> {
    pub model: QwenModelView<T>,
    pub tokenizer: TokenizerView,
    pub sampling_config: SamplingConfig<T>,
    /// How many tokens have been chosen.
    pub draws: u64,
}

/// What comes of generating: the tokens, the engine that has seen them, and the
/// token that was chosen last and is not among them.
#[verifier::ext_equal]
pub struct Run<T> {
    pub tokens: Seq<usize>,
    pub engine: EngineView<T>,
    pub last: usize,
}

/// The last row of a matrix.
pub open spec fn last_row<T>(t: TensorView<T>) -> Seq<T> {
    t.row_seq(t.shape[0] - 1)
}

/// Generating on after the tokens `ids`, which stand at positions from `pos` on: they
/// are passed through the model, and a token is chosen. It is emitted and the same is
/// done with it, unless it ends the sequence or `limit` tokens have been emitted.
#[verifier::opaque]
pub open spec fn run<T: Scalar>(
    engine: EngineView<T>,
    ids: Seq<usize>,
    pos: int,
    limit: nat,
) -> Run<T>
    decreases limit,
{
    if ids.len() == 0 {
        Run { tokens: Seq::empty(), engine, last: engine.tokenizer.eos() }
    } else {
        let token = engine.next_token(ids, pos);
        let next = engine.fed(ids, pos);
        if limit == 0 || token == engine.tokenizer.eos() {
            Run { tokens: Seq::empty(), engine: next, last: token }
        } else {
            let rest = run(next, seq![token], pos + ids.len(), (limit - 1) as nat);
            Run { tokens: seq![token] + rest.tokens, ..rest }
        }
    }
}

/// The text of a single token, as a function of the token.
pub open spec fn piece_fn(t: TokenizerView) -> spec_fn(usize) -> Seq<char> {
    |id: usize| t.decoding(seq![id])
}

/// The texts of tokens, each decoded on its own, joined.
pub open spec fn pieces(t: TokenizerView, tokens: Seq<usize>) -> Seq<char> {
    tokens.map_values(piece_fn(t)).flatten()
}

/// Whether `f` has been called with the text `piece`.
pub open spec fn was_told<F: FnMut(&str)>(f: F, piece: Seq<char>) -> bool {
    exists|s: &str| s@ == piece && #[trigger] call_ensures(f, (s,), ())
}

/// Whether `f` has been called with the text of every token.
pub open spec fn told_all<F: FnMut(&str)>(f: F, t: TokenizerView, tokens: Seq<usize>) -> bool {
    forall|k: int| 0 <= k < tokens.len() ==> was_told(f, t.decoding(seq![#[trigger] tokens[k]]))
}

impl<T: Scalar> EngineView<T> {
    /// Whether the parts fit together: there are tokens to choose from, and the
    /// generator has somewhere to start.
    pub open spec fn wf(self) -> bool {
        &&& self.model.wf()
        &&& 0 < self.model.lm_head.shape[0]
        &&& sampling::has_start(self.sampling_config) || (functional::<T>()
            && self.sampling_config.is_greedy())
    }

    /// Whether the model can take the tokens `ids` at positions from `pos` on.
    pub open spec fn takes(self, ids: Seq<usize>, pos: int) -> bool {
        &&& self.model.knows(ids)
        &&& self.model.accepts(ids.len() as int, pos)
        &&& pos + ids.len() <= usize::MAX
    }

    /// The token that is chosen after the tokens `ids`, which stand at positions from
    /// `pos` on.
    pub open spec fn next_token(self, ids: Seq<usize>, pos: int) -> usize {
        sampling::choice(
            last_row(self.model.logits(ids, pos)),
            self.sampling_config,
            self.draws,
        ) as usize
    }

    /// The engine once it has seen the tokens `ids` and chosen the next one.
    pub open spec fn fed(self, ids: Seq<usize>, pos: int) -> EngineView<T> {
        EngineView {
            model: self.model.after(ids, pos),
            draws: sampling::next_count(self.draws),
            ..self
        }
    }

    /// The engine as it was before it saw anything. The count of choices goes on.
    pub open spec fn fresh(self) -> EngineView<T> {
        EngineView { model: self.model.fresh(), ..self }
    }

    /// Whether `other` differs from this engine in the caches and in the count of
    /// choices alone.
    pub open spec fn same_parts(self, other: EngineView<T>) -> bool {
        &&& self.model.same_weights(other.model)
        &&& self.model.kv_caches.len() == other.model.kv_caches.len()
        &&& self.tokenizer == other.tokenizer
        &&& self.sampling_config == other.sampling_config
    }

    /// Whether `other` has seen `count` tokens more than this engine.
    pub open spec fn has_seen(self, other: EngineView<T>, count: int) -> bool {
        forall|k: int|
            0 <= k < self.model.layers.len() ==> (#[trigger] other.model.kv_caches[k]).rows()
                == self.model.kv_caches[k].rows() + count
    }

    /// What comes of generating after `prompt`, at the positions that follow what the
    /// model has seen.
    pub open spec fn generation(self, prompt: Seq<char>, limit: nat) -> Run<T> {
        run(self, self.tokenizer.encoding(prompt), self.model.cached(), limit)
    }

    /// Whether the first step can be made: the prompt can be encoded, and the model can
    /// take its tokens.
    pub open spec fn takes_prompt(self, prompt: Seq<char>) -> bool {
        let ids = self.tokenizer.encoding(prompt);
        &&& self.tokenizer.can_encode(prompt)
        &&& ids.len() > 0 ==> self.takes(ids, self.model.cached())
    }

    /// Whether text can be generated after `prompt` whatever is chosen: it can be
    /// encoded, the model knows its tokens and those that can be chosen, and there is
    /// room for them and `limit` more.
    pub open spec fn has_room_for(self, prompt: Seq<char>, limit: nat) -> bool {
        let ids = self.tokenizer.encoding(prompt);
        &&& self.tokenizer.can_encode(prompt)
        &&& ids.len() > 0 ==> {
            &&& self.model.knows(ids)
            &&& limit > 0 ==> self.model.lm_head.shape[0] <= self.model.embed_tokens.shape[0]
            &&& self.model.has_room(ids.len() as int, limit as int)
        }
    }

    /// Whether text can be generated after `prompt`: it can be encoded, and the model
    /// knows its tokens and those that are generated and has room for them. Where
    /// these are not fixed, they may be any, and `limit` of them.
    pub open spec fn can_generate(self, prompt: Seq<char>, limit: nat) -> bool {
        if functional::<T>() {
            let ids = self.tokenizer.encoding(prompt);
            let tokens = self.generation(prompt, limit).tokens;
            &&& self.tokenizer.can_encode(prompt)
            &&& ids.len() > 0 ==> {
                &&& self.model.knows(ids)
                &&& self.model.knows(tokens)
                &&& self.model.has_room(ids.len() as int, tokens.len() as int)
            }
        } else {
            self.has_room_for(prompt, limit)
        }
    }

    /// Whether `text` is `prompt` and the pieces of `tokens`, of which there are at
    /// most `limit` and none ends a sequence, and `after` is the engine that has seen
    /// them all. Where it is fixed what is generated, it is these tokens.
    pub open spec fn emits(
        self,
        prompt: Seq<char>,
        limit: nat,
        tokens: Seq<usize>,
        text: Seq<char>,
        after: EngineView<T>,
    ) -> bool {
        let whole = self.generation(prompt, limit);
        &&& tokens.len() <= limit
        &&& forall|i: int|
            0 <= i < tokens.len() ==> #[trigger] tokens[i] != self.tokenizer.eos() && tokens[i]
                < self.model.lm_head.shape[0]
        &&& text == prompt + pieces(self.tokenizer, tokens)
        &&& self.has_seen(
            after,
            (self.tokenizer.encoding(prompt).len() + tokens.len()) as int,
        )
        &&& functional::<T>() ==> tokens == whole.tokens && after == whole.engine
    }

    /// Whether `text` and `after` are what comes of generating after `prompt`.
    pub open spec fn generates(
        self,
        prompt: Seq<char>,
        limit: nat,
        text: Seq<char>,
        after: EngineView<T>,
    ) -> bool {
        exists|tokens: Seq<usize>| #[trigger] self.emits(prompt, limit, tokens, text, after)
    }

    /// Whether `text` and `after` are what comes of generating after `prompt`, and the
    /// text of each token that is in it was handed to `f`.
    pub open spec fn streams<F: FnMut(&str)>(
        self,
        prompt: Seq<char>,
        limit: nat,
        f: F,
        text: Seq<char>,
        after: EngineView<T>,
    ) -> bool {
        exists|tokens: Seq<usize>|
            #[trigger] self.emits(prompt, limit, tokens, text, after) && told_all(
                f,
                self.tokenizer,
                tokens,
            )
    }
}

/// What is still to be done for a text: the tokens `ids` are to be passed through the
/// model, at positions from `pos` on, and up to `left` tokens may be emitted.
#[verifier::ext_equal]
pub struct TurnView {
    pub ids: Seq<usize>,
    pub pos: int,
    pub left: nat,
}

/// What is still to be done for a text.
pub struct Turn {
    ids: Vec<usize>,
    pos: usize,
    left: usize,
}

impl View for Turn {
    type V = TurnView;

    closed spec fn view(&self) -> TurnView {
        TurnView { ids: self.ids@, pos: self.pos as int, left: self.left as nat }
    }
}

/// What came of a step: the text of the next token, the end of the text, or no room in
/// the model for the tokens at hand.
pub enum Progress {
    Piece(String),
    Finished,
    NoRoom,
}

/// A model, a tokenizer and a way of choosing tokens.
pub struct InferenceEngine<T: Scalar> {
    model: QwenModel<T>,
    tokenizer: Tokenizer,
    sampling_config: SamplingConfig<T>,
    draws: u64,
}

impl<T: Scalar> View for InferenceEngine<T> {
    type V = EngineView<T>;

    closed spec fn view(&self) -> EngineView<T> {
        EngineView {
            model: self.model@,
            tokenizer: self.tokenizer@,
            sampling_config: self.sampling_config,
            draws: self.draws,
        }
    }
}

impl<T: Scalar> InferenceEngine<T> {
    /// An engine of the given parts, which has chosen nothing yet.
    pub fn new(
        model: QwenModel<T>,
        tokenizer: Tokenizer,
        sampling_config: SamplingConfig<T>,
    ) -> (r: Self)
        ensures
            r@ == (EngineView { model: model@, tokenizer: tokenizer@, sampling_config, draws: 0 }),
    {
        InferenceEngine { model, tokenizer, sampling_config, draws: 0 }
    }

    /// Counts the choices from `draws` on. Without a seed an engine that counts from
    /// another number chooses otherwise. The largest number stands for 0.
    pub fn count_from(&mut self, draws: u64)
        ensures
            final(self)@ == (EngineView { draws: sampling::count_of(draws), ..old(self)@ }),
    {
        self.draws = if draws == u64::MAX {
            0
        } else {
            draws
        };
    }

    /// Passes tokens through the model and chooses the next one.
    fn step(&mut self, ids: &[usize], pos: usize) -> (r: usize)
        requires
            old(self)@.wf(),
            old(self)@.takes(ids@, pos as int),
        ensures
            r < old(self)@.model.lm_head.shape[0],
            final(self)@.wf(),
            old(self)@.same_parts(final(self)@),
            old(self)@.has_seen(final(self)@, ids@.len() as int),
            final(self)@.draws == sampling::next_count(old(self)@.draws),
            functional::<T>() ==> final(self)@ == old(self)@.fed(ids@, pos as int),
            functional::<T>() ==> r == old(self)@.next_token(ids@, pos as int),
    {
        let logits = self.model.forward(ids, pos);
        let last: usize = logits.shape()[0] - 1;
        proof {
            matrix::lemma_row_bounds(logits@, last as int);
        }
        let row = logits.row(last);
        sample(row.data(), &self.sampling_config, &mut self.draws)
    }

    /// Begins a text after `prompt`, at the positions that follow what the model has
    /// seen. It gives nothing where the prompt cannot be encoded.
    pub fn begin(&self, prompt: &str, max_tokens: usize) -> (r: Option<Turn>)
        requires
            self@.wf(),
        ensures
            r is Some <==> self@.tokenizer.can_encode(prompt@),
            r matches Some(turn) ==> turn@ == (TurnView {
                ids: self@.tokenizer.encoding(prompt@),
                pos: self@.model.cached(),
                left: max_tokens as nat,
            }),
    {
        if !self.tokenizer.can_encode(prompt) {
            return None;
        }
        Some(
            Turn { ids: self.tokenizer.encode(prompt), pos: self.model.cached(), left: max_tokens },
        )
    }

    /// Goes one step on: the tokens at hand are passed through the model and the next
    /// one is chosen. Its text is given back, and it is what is at hand next, unless
    /// it ends the text or the text is long enough.
    pub fn advance(&mut self, turn: &mut Turn) -> (r: Progress)
        requires
            old(self)@.wf(),
        ensures
            final(self)@.wf(),
            old(self)@.same_parts(final(self)@),
            r is NoRoom <==> old(turn)@.ids.len() > 0 && !old(self)@.takes(
                old(turn)@.ids,
                old(turn)@.pos,
            ),
            r is NoRoom || old(turn)@.ids.len() == 0 ==> final(self)@ == old(self)@,
            old(turn)@.ids.len() == 0 ==> r is Finished,
            r !is Piece ==> final(turn)@ == old(turn)@,
            r !is NoRoom && old(turn)@.ids.len() > 0 ==> {
                &&& old(self)@.has_seen(final(self)@, old(turn)@.ids.len() as int)
                &&& final(self)@.draws == sampling::next_count(old(self)@.draws)
                &&& old(turn)@.left == 0 ==> r is Finished
                &&& functional::<T>() ==> {
                    let token = old(self)@.next_token(old(turn)@.ids, old(turn)@.pos);
                    &&& final(self)@ == old(self)@.fed(old(turn)@.ids, old(turn)@.pos)
                    &&& r is Finished <==> old(turn)@.left == 0 || token
                        == old(self)@.tokenizer.eos()
                    &&& r is Piece ==> final(turn)@.ids == seq![token]
                }
            },
            r matches Progress::Piece(piece) ==> {
                let token = final(turn)@.ids[0];
                &&& final(turn)@.ids == seq![token]
                &&& final(turn)@.pos == old(turn)@.pos + old(turn)@.ids.len()
                &&& final(turn)@.left == old(turn)@.left - 1
                &&& token != old(self)@.tokenizer.eos()
                &&& token < old(self)@.model.lm_head.shape[0]
                &&& piece@ == old(self)@.tokenizer.decoding(seq![token])
            },
    {
        let n: usize = turn.ids.len();
        if n == 0 {
            return Progress::Finished;
        }
        let end: usize = match turn.pos.checked_add(n) {
            Some(end) => end,
            None => return Progress::NoRoom,
        };
        if !self.model.knows(turn.ids.as_slice()) || !self.model.accepts(n, turn.pos) {
            return Progress::NoRoom;
        }
        let token: usize = self.step(turn.ids.as_slice(), turn.pos);
        if turn.left == 0 || token == self.tokenizer.eos_token_id() {
            return Progress::Finished;
        }
        let single: [usize; 1] = [token];
        assert(single@ =~= seq![token]);
        let piece = self.tokenizer.decode(&single);
        let ids: Vec<usize> = vec![token];
        assert(ids@ =~= seq![token]);
        turn.ids = ids;
        turn.pos = end;
        turn.left = turn.left - 1;
        Progress::Piece(piece)
    }

    /// Generates text after `prompt`, and hands the text of each token to `callback`
    /// as soon as it is chosen. It stops with nothing where the prompt cannot be
    /// encoded or the model has no room for the next token.
    pub fn try_generate_with_callback<F>(
        &mut self,
        prompt: &str,
        max_tokens: usize,
        callback: F,
    ) -> (r: Option<String>) where F: FnMut(&str)
        requires
            old(self)@.wf(),
            forall|piece: &str| call_requires(callback, (piece,)),
        ensures
            final(self)@.wf(),
            old(self)@.same_parts(final(self)@),
            r matches Some(text) ==> old(self)@.streams(
                prompt@,
                max_tokens as nat,
                callback,
                text@,
                final(self)@,
            ),
            old(self)@.has_room_for(prompt@, max_tokens as nat) ==> r is Some,
            functional::<T>() ==> (r is Some <==> old(self)@.can_generate(
                prompt@,
                max_tokens as nat,
            )),
            !old(self)@.takes_prompt(prompt@) ==> r is None && final(self)@ == old(self)@,
    {
        let ghost start = self@;
        let ghost limit = max_tokens as nat;
        let mut tell = callback;
        let mut turn: Turn = match self.begin(prompt, max_tokens) {
            Some(turn) => turn,
            None => return None,
        };
        let mut out = prompt.to_owned();
        let ghost mut tokens: Seq<usize> = Seq::empty();
        proof {
            lemma_at_the_start(start, prompt@, limit);
        }
        loop
            invariant
                start == old(self)@,
                start.wf(),
                limit == max_tokens,
                tell == callback,
                start.tokenizer.can_encode(prompt@),
                self@.wf(),
                start.same_parts(self@),
                is_at(start, self@, prompt@, limit, tokens, turn@),
                is_on_track(start, self@, prompt@, limit, tokens, turn@),
                has_said(start, prompt@, tokens, out@),
                told_all(callback, start.tokenizer, tokens),
                forall|piece: &str| call_requires(callback, (piece,)),
            decreases turn@.left,
        {
            let ghost (was, before, text) = (self@, turn@, out@);
            match self.advance(&mut turn) {
                Progress::NoRoom => {
                    proof {
                        lemma_refused(start, was, prompt@, limit, tokens, before, text);
                    }
                    return None;
                },
                Progress::Finished => {
                    proof {
                        lemma_finished(start, was, self@, prompt@, limit, tokens, before, text);
                    }
                    return Some(out);
                },
                Progress::Piece(piece) => {
                    let said: &str = piece.as_str();
                    tell(said);
                    out.append(said);
                    proof {
                        let token = turn@.ids[0];
                        assert(call_ensures(callback, (said,), ()));
                        lemma_next(start, was, self@, prompt@, limit, tokens, before, turn@);
                        lemma_said_more(start, prompt@, tokens, text, token);
                        lemma_told_more(callback, start.tokenizer, tokens, token);
                        tokens = tokens.push(token);
                    }
                },
            }
        }
    }

    /// Generates text after `prompt`, and hands the text of each token to `callback`
    /// as soon as it is chosen.
    pub fn generate_with_callback<F>(
        &mut self,
        prompt: &str,
        max_tokens: usize,
        callback: F,
    ) -> (r: String) where F: FnMut(&str)
        requires
            old(self)@.wf(),
            old(self)@.can_generate(prompt@, max_tokens as nat),
            forall|piece: &str| call_requires(callback, (piece,)),
        ensures
            final(self)@.wf(),
            old(self)@.same_parts(final(self)@),
            old(self)@.streams(prompt@, max_tokens as nat, callback, r@, final(self)@),
    {
        self.try_generate_with_callback(prompt, max_tokens, callback).unwrap()
    }

    /// Generates text after `prompt`: the prompt, and at most `max_tokens` tokens.
    pub fn generate(&mut self, prompt: &str, max_tokens: usize) -> (r: String)
        requires
            old(self)@.wf(),
            old(self)@.can_generate(prompt@, max_tokens as nat),
        ensures
            final(self)@.wf(),
            old(self)@.same_parts(final(self)@),
            old(self)@.generates(prompt@, max_tokens as nat, r@, final(self)@),
    {
        self.generate_with_callback(prompt, max_tokens, |_piece: &str| {})
    }

    /// Whether text can be generated after `prompt` whatever is chosen.
    pub fn has_room_for(&self, prompt: &str, max_tokens: usize) -> (r: bool)
        requires
            self@.wf(),
        ensures
            r == self@.has_room_for(prompt@, max_tokens as nat),
            r ==> self@.can_generate(prompt@, max_tokens as nat),
    {
        if !self.tokenizer.can_encode(prompt) {
            return false;
        }
        let ids = self.tokenizer.encode(prompt);
        let r: bool = ids.len() == 0 || (self.model.knows(ids.as_slice())
            && (max_tokens == 0 || self.model.knows_what_it_gives()) && self.model.has_room(
            ids.len(),
            max_tokens,
        ));
        proof {
            if r {
                lemma_enough_room(self@, prompt@, max_tokens as nat);
            }
        }
        r
    }

    /// Forgets everything that was generated before. The choices that were made are
    /// still counted.
    pub fn reset(&mut self)
        ensures
            final(self)@ == old(self)@.fresh(),
            old(self)@.wf() ==> final(self)@.wf(),
    {
        self.model.reset_caches();
    }

    /// The ID of the token that ends a sequence.
    pub fn eos_token_id(&self) -> (r: usize)
        ensures
            r == self@.tokenizer.eos(),
    {
        self.tokenizer.eos_token_id()
    }

    /// The model.
    pub fn model(&self) -> (r: &QwenModel<T>)
        ensures
            r@ == self@.model,
    {
        &self.model
    }

    /// The model, for changing it in place.
    pub fn model_mut(&mut self) -> (r: &mut QwenModel<T>)
        ensures
            r@ == old(self)@.model,
            final(self)@ == (EngineView { model: final(r)@, ..old(self)@ }),
    {
        &mut self.model
    }

    /// The tokenizer.
    pub fn tokenizer(&self) -> (r: &Tokenizer)
        ensures
            r@ == self@.tokenizer,
    {
        &self.tokenizer
    }
}

/// Where generating has come to once `tokens` have been emitted: the last of them is
/// at hand, and all that came before it has been seen.
#[verifier::opaque]
spec fn is_at<T: Scalar>(
    start: EngineView<T>,
    now: EngineView<T>,
    prompt: Seq<char>,
    limit: nat,
    tokens: Seq<usize>,
    turn: TurnView,
) -> bool {
    let ids = start.tokenizer.encoding(prompt);
    let m = start.model;
    &&& turn.left + tokens.len() == limit
    &&& if tokens.len() == 0 {
        &&& now == start
        &&& turn.ids == ids
        &&& turn.pos == m.cached()
    } else {
        let taken = tokens.len() - 1;
        &&& ids.len() > 0
        &&& start.takes(ids, m.cached())
        &&& turn.ids == seq![tokens.last()]
        &&& turn.pos == m.cached() + ids.len() + taken
        &&& m.knows(tokens.drop_last())
        &&& m.has_room(ids.len() as int, taken)
        &&& start.has_seen(now, ids.len() + taken)
    }
}

/// Whether going on gives what is to be generated, where that is fixed.
#[verifier::opaque]
spec fn is_on_track<T: Scalar>(
    start: EngineView<T>,
    now: EngineView<T>,
    prompt: Seq<char>,
    limit: nat,
    tokens: Seq<usize>,
    turn: TurnView,
) -> bool {
    functional::<T>() ==> {
        let whole = start.generation(prompt, limit);
        let rest = run(now, turn.ids, turn.pos, turn.left);
        &&& whole.tokens == tokens + rest.tokens
        &&& whole.engine == rest.engine
    }
}

/// Whether `text` is the prompt and the pieces of `tokens`, which could all be
/// chosen.
#[verifier::opaque]
spec fn has_said<T: Scalar>(
    start: EngineView<T>,
    prompt: Seq<char>,
    tokens: Seq<usize>,
    text: Seq<char>,
) -> bool {
    &&& text == prompt + pieces(start.tokenizer, tokens)
    &&& forall|i: int|
        0 <= i < tokens.len() ==> #[trigger] tokens[i] != start.tokenizer.eos() && tokens[i]
            < start.model.lm_head.shape[0]
}

/// Nothing comes of no tokens.
pub proof fn lemma_run_of_nothing<T: Scalar>(
    engine: EngineView<T>,
    ids: Seq<usize>,
    pos: int,
    limit: nat,
)
    requires
        ids.len() == 0,
    ensures
        run(engine, ids, pos, limit) == (Run {
            tokens: Seq::empty(),
            engine,
            last: engine.tokenizer.eos(),
        }),
{
    reveal(run);
}

/// A run ends where the limit is reached or the end is chosen.
pub proof fn lemma_run_ends<T: Scalar>(
    engine: EngineView<T>,
    ids: Seq<usize>,
    pos: int,
    limit: nat,
)
    requires
        ids.len() > 0,
        limit == 0 || engine.next_token(ids, pos) == engine.tokenizer.eos(),
    ensures
        run(engine, ids, pos, limit) == (Run {
            tokens: Seq::empty(),
            engine: engine.fed(ids, pos),
            last: engine.next_token(ids, pos),
        }),
{
    reveal(run);
}

/// A run goes on with the token that is chosen.
pub proof fn lemma_run_goes_on<T: Scalar>(
    engine: EngineView<T>,
    ids: Seq<usize>,
    pos: int,
    limit: nat,
)
    requires
        ids.len() > 0,
        limit > 0,
        engine.next_token(ids, pos) != engine.tokenizer.eos(),
    ensures
        ({
            let token = engine.next_token(ids, pos);
            let r = run(engine, ids, pos, limit);
            let rest = run(
                engine.fed(ids, pos),
                seq![token],
                pos + ids.len(),
                (limit - 1) as nat,
            );
            &&& r.tokens == seq![token] + rest.tokens
            &&& r.engine == rest.engine
            &&& r.last == rest.last
        }),
{
    reveal(run);
}

/// What is chosen is a token that the model has a logit for.
proof fn lemma_next_token<T: Scalar>(engine: EngineView<T>, ids: Seq<usize>, pos: int)
    requires
        engine.model.weights_wf(),
        0 < engine.model.lm_head.shape[0],
        0 < ids.len() <= usize::MAX,
    ensures
        engine.next_token(ids, pos) < engine.model.lm_head.shape[0],
{
    passes::lemma_last_logits(engine.model, ids, pos);
    sampling::choice_is_a_token(
        last_row(engine.model.logits(ids, pos)),
        engine.sampling_config,
        engine.draws,
    );
}

proof fn lemma_at_the_start<T: Scalar>(start: EngineView<T>, prompt: Seq<char>, limit: nat)
    ensures
        ({
            let turn = TurnView {
                ids: start.tokenizer.encoding(prompt),
                pos: start.model.cached(),
                left: limit,
            };
            &&& is_at(start, start, prompt, limit, Seq::empty(), turn)
            &&& is_on_track(start, start, prompt, limit, Seq::empty(), turn)
            &&& has_said(start, prompt, Seq::empty(), prompt)
        }),
{
    reveal(is_at);
    reveal(is_on_track);
    reveal(has_said);
    let none = Seq::<usize>::empty();
    let rest = start.generation(prompt, limit);
    assert(none + rest.tokens =~= rest.tokens);
    assert(pieces(start.tokenizer, none) =~= Seq::empty());
    assert(prompt =~= prompt + pieces(start.tokenizer, none));
}

proof fn lemma_said_more<T: Scalar>(
    start: EngineView<T>,
    prompt: Seq<char>,
    tokens: Seq<usize>,
    text: Seq<char>,
    token: usize,
)
    requires
        has_said(start, prompt, tokens, text),
        token != start.tokenizer.eos(),
        token < start.model.lm_head.shape[0],
    ensures
        has_said(
            start,
            prompt,
            tokens.push(token),
            text + start.tokenizer.decoding(seq![token]),
        ),
{
    reveal(has_said);
    let f = piece_fn(start.tokenizer);
    text::lemma_flat_map_add(tokens, seq![token], f);
    text::lemma_flat_map_one(token, f);
    assert(tokens.push(token) =~= tokens + seq![token]);
    assert(text + f(token) =~= prompt + pieces(start.tokenizer, tokens.push(token)));
}

proof fn lemma_told_more<F: FnMut(&str)>(
    f: F,
    t: TokenizerView,
    tokens: Seq<usize>,
    token: usize,
)
    requires
        told_all(f, t, tokens),
        was_told(f, t.decoding(seq![token])),
    ensures
        told_all(f, t, tokens.push(token)),
{
    assert forall|k: int| 0 <= k < tokens.push(token).len() implies was_told(
        f,
        t.decoding(seq![#[trigger] tokens.push(token)[k]]),
    ) by {
        if k < tokens.len() {
            assert(was_told(f, t.decoding(seq![tokens[k]])));
        }
    }
}

proof fn lemma_refused<T: Scalar>(
    start: EngineView<T>,
    now: EngineView<T>,
    prompt: Seq<char>,
    limit: nat,
    tokens: Seq<usize>,
    turn: TurnView,
    text: Seq<char>,
)
    requires
        start.wf(),
        now.wf(),
        start.same_parts(now),
        start.tokenizer.can_encode(prompt),
        is_at(start, now, prompt, limit, tokens, turn),
        is_on_track(start, now, prompt, limit, tokens, turn),
        has_said(start, prompt, tokens, text),
        turn.ids.len() > 0,
        !now.takes(turn.ids, turn.pos),
    ensures
        !start.has_room_for(prompt, limit),
        functional::<T>() ==> !start.can_generate(prompt, limit),
        !start.takes_prompt(prompt) ==> now == start,
{
    reveal(is_at);
    reveal(has_said);
    let ids = start.tokenizer.encoding(prompt);
    let n = ids.len() as int;
    let m = start.model;
    let (more, given) = if functional::<T>() {
        reveal(is_on_track);
        let all = start.generation(prompt, limit).tokens;
        assert(all.len() >= tokens.len());
        (all.len() as int, all)
    } else {
        (limit as int, tokens)
    };
    if tokens.len() == 0 {
        if m.has_room(n, limit as int) {
            lemma_room(m, m, n, limit as int, 0);
        }
        if m.has_room(n, more) {
            lemma_room(m, m, n, more, 0);
        }
    } else {
        let taken = tokens.len() - 1;
        let token = tokens.last();
        if m.has_room(n, limit as int) {
            lemma_room(m, now.model, n, limit as int, taken);
        }
        if m.has_room(n, more) {
            lemma_room(m, now.model, n, more, taken);
        }
        assert(tokens[taken] == token);
        if functional::<T>() {
            assert(given[taken] == token);
        }
    }
}

proof fn lemma_next<T: Scalar>(
    start: EngineView<T>,
    was: EngineView<T>,
    now: EngineView<T>,
    prompt: Seq<char>,
    limit: nat,
    tokens: Seq<usize>,
    before: TurnView,
    turn: TurnView,
)
    requires
        start.wf(),
        start.same_parts(was),
        is_at(start, was, prompt, limit, tokens, before),
        is_on_track(start, was, prompt, limit, tokens, before),
        before.ids.len() > 0,
        before.left > 0,
        was.takes(before.ids, before.pos),
        was.has_seen(now, before.ids.len() as int),
        turn.ids == seq![turn.ids[0]],
        turn.pos == before.pos + before.ids.len(),
        turn.left == before.left - 1,
        turn.ids[0] != start.tokenizer.eos(),
        functional::<T>() ==> turn.ids[0] == was.next_token(before.ids, before.pos),
        functional::<T>() ==> now == was.fed(before.ids, before.pos),
    ensures
        is_at(start, now, prompt, limit, tokens.push(turn.ids[0]), turn),
        is_on_track(start, now, prompt, limit, tokens.push(turn.ids[0]), turn),
{
    let token = turn.ids[0];
    let later = tokens.push(token);
    let ids = start.tokenizer.encoding(prompt);
    assert(is_at(start, now, prompt, limit, later, turn)) by {
        reveal(is_at);
        lemma_one_more(start, was, now, prompt, limit, tokens, before);
        assert(later.drop_last() =~= tokens);
    }
    assert(is_on_track(start, now, prompt, limit, later, turn)) by {
        reveal(is_on_track);
        if functional::<T>() {
            lemma_run_goes_on(was, before.ids, before.pos, before.left);
            let rest = run(was, before.ids, before.pos, before.left);
            let further = run(now, turn.ids, turn.pos, turn.left);
            assert(rest.tokens == seq![token] + further.tokens);
            assert(tokens + rest.tokens =~= later + further.tokens);
        }
    }
}

/// Once what is at hand has been seen, the model has had room for all of it.
proof fn lemma_one_more<T: Scalar>(
    start: EngineView<T>,
    was: EngineView<T>,
    now: EngineView<T>,
    prompt: Seq<char>,
    limit: nat,
    tokens: Seq<usize>,
    turn: TurnView,
)
    requires
        start.wf(),
        start.same_parts(was),
        is_at(start, was, prompt, limit, tokens, turn),
        turn.ids.len() > 0,
        was.takes(turn.ids, turn.pos),
        was.has_seen(now, turn.ids.len() as int),
    ensures
        ({
            let ids = start.tokenizer.encoding(prompt);
            &&& ids.len() > 0
            &&& start.takes(ids, start.model.cached())
            &&& start.model.knows(tokens)
            &&& start.model.has_room(ids.len() as int, tokens.len() as int)
            &&& start.has_seen(now, (ids.len() + tokens.len()) as int)
        }),
{
    reveal(is_at);
    let ids = start.tokenizer.encoding(prompt);
    let n = ids.len() as int;
    let m = start.model;
    if tokens.len() == 0 {
        lemma_first_room(m, n);
    } else {
        let taken = tokens.len() - 1;
        lemma_more_room(m, was.model, n, taken);
        assert forall|i: int| 0 <= i < tokens.len() implies #[trigger] tokens[i]
            < m.embed_tokens.shape[0] by {
            if i < taken {
                assert(tokens.drop_last()[i] == tokens[i]);
            } else {
                assert(turn.ids[0] == tokens[i]);
            }
        }
        assert forall|k: int| 0 <= k < m.layers.len() implies (
        #[trigger] now.model.kv_caches[k]).rows() == m.kv_caches[k].rows() + n + tokens.len() by {
            assert(was.model.kv_caches[k].rows() == m.kv_caches[k].rows() + n + taken);
        }
    }
}

proof fn lemma_finished<T: Scalar>(
    start: EngineView<T>,
    was: EngineView<T>,
    now: EngineView<T>,
    prompt: Seq<char>,
    limit: nat,
    tokens: Seq<usize>,
    turn: TurnView,
    text: Seq<char>,
)
    requires
        start.wf(),
        start.same_parts(was),
        start.tokenizer.can_encode(prompt),
        is_at(start, was, prompt, limit, tokens, turn),
        is_on_track(start, was, prompt, limit, tokens, turn),
        has_said(start, prompt, tokens, text),
        turn.ids.len() == 0 ==> now == was,
        turn.ids.len() > 0 ==> {
            &&& was.takes(turn.ids, turn.pos)
            &&& was.has_seen(now, turn.ids.len() as int)
            &&& functional::<T>() ==> now == was.fed(turn.ids, turn.pos) && (turn.left == 0
                || was.next_token(turn.ids, turn.pos) == was.tokenizer.eos())
        },
    ensures
        start.emits(prompt, limit, tokens, text, now),
        start.takes_prompt(prompt),
        functional::<T>() ==> start.can_generate(prompt, limit),
{
    assert(tokens.len() <= limit) by {
        reveal(is_at);
    }
    if turn.ids.len() > 0 {
        lemma_one_more(start, was, now, prompt, limit, tokens, turn);
    } else {
        reveal(is_at);
        assert(tokens.len() == 0);
    }
    reveal(has_said);
    if functional::<T>() {
        reveal(is_on_track);
        if turn.ids.len() > 0 {
            lemma_run_ends(was, turn.ids, turn.pos, turn.left);
        } else {
            lemma_run_of_nothing(was, turn.ids, turn.pos, turn.left);
        }
        assert(start.generation(prompt, limit).tokens =~= tokens);
    }
}

/// Room for as many tokens as there may be is room for those that there are.
pub proof fn lemma_enough_room<T: Scalar>(engine: EngineView<T>, prompt: Seq<char>, limit: nat)
    requires
        engine.wf(),
        engine.has_room_for(prompt, limit),
    ensures
        engine.can_generate(prompt, limit),
{
    let ids = engine.tokenizer.encoding(prompt);
    if ids.len() > 0 && functional::<T>() {
        let pos = engine.model.cached();
        generating_stops(engine, ids, pos, limit);
        generating_gives_tokens(engine, ids, pos, limit);
        let tokens = run(engine, ids, pos, limit).tokens;
        lemma_less_room(engine.model, ids.len() as int, tokens.len() as int, limit as int);
    }
}

/// Generating stops in time: there are at most `limit` tokens, none of them is the
/// one that ends a sequence, and where there are fewer, it is because that one was
/// chosen next.
pub proof fn generating_stops<T: Scalar>(
    engine: EngineView<T>,
    ids: Seq<usize>,
    pos: int,
    limit: nat,
)
    ensures
        ({
            let r = run(engine, ids, pos, limit);
            &&& r.tokens.len() <= limit
            &&& forall|i: int|
                0 <= i < r.tokens.len() ==> #[trigger] r.tokens[i] != engine.tokenizer.eos()
            &&& r.tokens.len() < limit ==> r.last == engine.tokenizer.eos()
        }),
    decreases limit,
{
    if ids.len() == 0 {
        lemma_run_of_nothing(engine, ids, pos, limit);
    } else if limit == 0 || engine.next_token(ids, pos) == engine.tokenizer.eos() {
        lemma_run_ends(engine, ids, pos, limit);
    } else {
        let token = engine.next_token(ids, pos);
        lemma_run_goes_on(engine, ids, pos, limit);
        generating_stops(
            engine.fed(ids, pos),
            seq![token],
            pos + ids.len(),
            (limit - 1) as nat,
        );
    }
}

/// Every token that is generated is one that the model has a logit for.
pub proof fn generating_gives_tokens<T: Scalar>(
    engine: EngineView<T>,
    ids: Seq<usize>,
    pos: int,
    limit: nat,
)
    requires
        engine.model.weights_wf(),
        0 < engine.model.lm_head.shape[0],
        ids.len() <= usize::MAX,
    ensures
        ({
            let r = run(engine, ids, pos, limit);
            forall|i: int|
                0 <= i < r.tokens.len() ==> #[trigger] r.tokens[i]
                    < engine.model.lm_head.shape[0]
        }),
    decreases limit,
{
    if ids.len() == 0 {
        lemma_run_of_nothing(engine, ids, pos, limit);
    } else if limit == 0 || engine.next_token(ids, pos) == engine.tokenizer.eos() {
        lemma_run_ends(engine, ids, pos, limit);
    } else {
        let token = engine.next_token(ids, pos);
        lemma_next_token(engine, ids, pos);
        lemma_run_goes_on(engine, ids, pos, limit);
        let next = engine.fed(ids, pos);
        assert(next.model.weights_wf());
        generating_gives_tokens(next, seq![token], pos + ids.len(), (limit - 1) as nat);
    }
}

/// A lower limit cuts the text off, and changes nothing before the cut.
pub proof fn lower_limit_gives_a_prefix<T: Scalar>(
    engine: EngineView<T>,
    ids: Seq<usize>,
    pos: int,
    fewer: nat,
    limit: nat,
)
    requires
        fewer <= limit,
    ensures
        run(engine, ids, pos, fewer).tokens.is_prefix_of(run(engine, ids, pos, limit).tokens),
    decreases fewer,
{
    if ids.len() == 0 {
        lemma_run_of_nothing(engine, ids, pos, fewer);
    } else if fewer == 0 || engine.next_token(ids, pos) == engine.tokenizer.eos() {
        lemma_run_ends(engine, ids, pos, fewer);
    } else {
        lemma_run_goes_on(engine, ids, pos, fewer);
        lemma_run_goes_on(engine, ids, pos, limit);
        let next = engine.fed(ids, pos);
        let one = seq![engine.next_token(ids, pos)];
        let end = pos + ids.len();
        lower_limit_gives_a_prefix(next, one, end, (fewer - 1) as nat, (limit - 1) as nat);
        let a = run(next, one, end, (fewer - 1) as nat).tokens;
        let b = run(next, one, end, (limit - 1) as nat).tokens;
        assert(a =~= b.subrange(0, a.len() as int));
        assert((one + a) =~= (one + b).subrange(0, (one + a).len() as int));
    }
}

/// Generating changes nothing but the caches and the count of choices.
pub proof fn generating_keeps_the_parts<T: Scalar>(
    engine: EngineView<T>,
    ids: Seq<usize>,
    pos: int,
    limit: nat,
)
    requires
        engine.model.kv_caches.len() == engine.model.layers.len(),
    ensures
        engine.same_parts(run(engine, ids, pos, limit).engine),
    decreases limit,
{
    if ids.len() == 0 {
        lemma_run_of_nothing(engine, ids, pos, limit);
    } else if limit == 0 || engine.next_token(ids, pos) == engine.tokenizer.eos() {
        lemma_run_ends(engine, ids, pos, limit);
    } else {
        lemma_run_goes_on(engine, ids, pos, limit);
        generating_keeps_the_parts(
            engine.fed(ids, pos),
            seq![engine.next_token(ids, pos)],
            pos + ids.len(),
            (limit - 1) as nat,
        );
    }
}

/// With a seed, or with the largest logit taken every time, what is generated does not
/// depend on how many choices came before.
pub proof fn earlier_choices_do_not_matter<T: Scalar>(
    a: EngineView<T>,
    b: EngineView<T>,
    ids: Seq<usize>,
    pos: int,
    limit: nat,
)
    requires
        (EngineView { draws: b.draws, ..a }) == b,
        a.sampling_config.seed is Some || a.sampling_config.is_greedy(),
    ensures
        run(a, ids, pos, limit).tokens == run(b, ids, pos, limit).tokens,
        run(a, ids, pos, limit).engine.model == run(b, ids, pos, limit).engine.model,
    decreases limit,
{
    if ids.len() == 0 {
        lemma_run_of_nothing(a, ids, pos, limit);
        lemma_run_of_nothing(b, ids, pos, limit);
    } else {
        let token = a.next_token(ids, pos);
        sampling::same_seed_same_choice(
            last_row(a.model.logits(ids, pos)),
            a.sampling_config,
            b.sampling_config,
            a.draws,
            b.draws,
        );
        assert(token == b.next_token(ids, pos));
        if limit == 0 || token == a.tokenizer.eos() {
            lemma_run_ends(a, ids, pos, limit);
            lemma_run_ends(b, ids, pos, limit);
        } else {
            lemma_run_goes_on(a, ids, pos, limit);
            lemma_run_goes_on(b, ids, pos, limit);
            earlier_choices_do_not_matter(
                a.fed(ids, pos),
                b.fed(ids, pos),
                seq![token],
                pos + ids.len(),
                (limit - 1) as nat,
            );
        }
    }
}

/// After a reset an engine generates as if it had generated nothing before, where a
/// seed is given or the largest logit is taken every time: whatever was generated
/// earlier, and in however many calls, the same prompt gives the same text.
pub proof fn generating_again_after_a_reset<T: Scalar>(
    unused: EngineView<T>,
    used: EngineView<T>,
    prompt: Seq<char>,
    limit: nat,
)
    requires
        unused.same_parts(used),
        unused.sampling_config.seed is Some || unused.sampling_config.is_greedy(),
    ensures
        ({
            let first = unused.fresh().generation(prompt, limit);
            let again = used.fresh().generation(prompt, limit);
            &&& first.tokens == again.tokens
            &&& pieces(unused.tokenizer, first.tokens) == pieces(used.tokenizer, again.tokens)
            &&& first.engine.model == again.engine.model
        }),
{
    let (a, b) = (unused.fresh(), used.fresh());
    assert(a.model.kv_caches =~= b.model.kv_caches);
    assert(a.model == b.model);
    let ids = a.tokenizer.encoding(prompt);
    earlier_choices_do_not_matter(a, b, ids, a.model.cached(), limit);
}

/// What is handed out piece by piece is the text of all the tokens, where each of them
/// stands for whole characters.
pub proof fn pieces_join_to_the_text(t: TokenizerView, tokens: Seq<usize>)
    requires
        forall|k: int|
            0 <= k < tokens.len() ==> vstd::utf8::valid_utf8(
                tokenizer::chars_bytes(t.token_texts(seq![#[trigger] tokens[k]])),
            ),
    ensures
        pieces(t, tokens) == t.decoding(tokens),
    decreases tokens.len(),
{
    let f = piece_fn(t);
    if tokens.len() == 0 {
        assert(pieces(t, tokens) =~= Seq::empty());
        assert(tokens.map_values(t.token_text_fn()).flatten() =~= Seq::<char>::empty());
        assert(tokenizer::chars_bytes(Seq::empty()) =~= Seq::<u8>::empty());
    } else {
        let (one, rest) = (seq![tokens[0]], tokens.drop_first());
        assert(tokens =~= one + rest);
        assert forall|k: int| 0 <= k < rest.len() implies vstd::utf8::valid_utf8(
            tokenizer::chars_bytes(t.token_texts(seq![#[trigger] rest[k]])),
        ) by {
            assert(rest[k] == tokens[k + 1]);
        }
        pieces_join_to_the_text(t, rest);
        roundtrip::decoding_joins(t, one, rest);
        text::lemma_flat_map_add(one, rest, f);
        text::lemma_flat_map_one(tokens[0], f);
    }
}

/// A text starts with its prompt, and goes on with the texts of the tokens that are
/// generated.
pub proof fn text_starts_with_the_prompt<T: Scalar>(
    engine: EngineView<T>,
    prompt: Seq<char>,
    limit: nat,
    text: Seq<char>,
    after: EngineView<T>,
)
    requires
        engine.generates(prompt, limit, text, after),
    ensures
        prompt.is_prefix_of(text),
        limit == 0 ==> text == prompt,
        functional::<T>() ==> text == prompt + pieces(
            engine.tokenizer,
            run(
                engine,
                engine.tokenizer.encoding(prompt),
                engine.model.cached(),
                limit,
            ).tokens,
        ),
{
    let tokens = choose|tokens: Seq<usize>| #[trigger]
        engine.emits(prompt, limit, tokens, text, after);
    assert(prompt =~= text.take(prompt.len() as int));
    if limit == 0 {
        assert(pieces(engine.tokenizer, tokens) =~= Seq::empty());
        assert(text =~= prompt);
    }
}

/// The next token is chosen by the logits of the last token alone: where the largest is
/// taken, none of them is above that of the token chosen, and those of the tokens before it
/// are below.
pub proof fn greedy_engine_takes_the_largest<T: Scalar>(
    engine: EngineView<T>,
    ids: Seq<usize>,
    pos: int,
    j: int,
)
    requires
        engine.model.wf(),
        0 < engine.model.lm_head.shape[0],
        0 < ids.len() <= usize::MAX,
        engine.sampling_config.is_greedy(),
        0 <= j < engine.model.lm_head.shape[0],
        ranking::weakly_ordered(
            Seq::new(
                engine.model.lm_head.shape[0] as nat,
                |c: int| engine.model.logits(ids, pos).at(ids.len() - 1, c),
            ),
        ),
    ensures
        ({
            let logits = engine.model.logits(ids, pos);
            let last = ids.len() - 1;
            let token = engine.next_token(ids, pos) as int;
            &&& 0 <= token < engine.model.lm_head.shape[0]
            &&& !less_than(logits.at(last, token), logits.at(last, j))
            &&& j < token ==> less_than(logits.at(last, j), logits.at(last, token))
        }),
{
    let logits = engine.model.logits(ids, pos);
    let last = ids.len() - 1;
    let row = Seq::new(
        engine.model.lm_head.shape[0] as nat,
        |c: int| logits.at(last, c),
    );
    passes::lemma_last_logits(engine.model, ids, pos);
    passes::lemma_logits_wf(engine.model, ids, pos);
    matrix::lemma_row_bounds(logits, last);
    assert(last_row(logits) =~= row);
    sampling::argmax_is_the_first_largest(row);
    let token = sampling::argmax_of(row);
    assert(engine.next_token(ids, pos) as int == token);
    assert(row[j] == logits.at(last, j));
    assert(row[token] == logits.at(last, token));
}

/// Without a seed an engine draws anew for every token: the number that the next choice
/// starts from is another one.
pub proof fn engine_draws_anew<T: Scalar>(engine: EngineView<T>, ids: Seq<usize>, pos: int)
    requires
        engine.sampling_config.seed is None,
    ensures
        engine.sampling_config.start_at(engine.draws) != engine.fed(
            ids,
            pos,
        ).sampling_config.start_at(engine.fed(ids, pos).draws),
{
    sampling::choices_in_a_row_draw_from_different_seeds(engine.sampling_config, engine.draws);
}

/// A step passes the tokens at hand through the model, and nothing else changes but the
/// count of choices.
pub proof fn a_step_feeds_the_model<T: Scalar>(engine: EngineView<T>, ids: Seq<usize>, pos: int)
    ensures
        engine.fed(ids, pos).model == engine.model.after(ids, pos),
        engine.fed(ids, pos).tokenizer == engine.tokenizer,
        engine.fed(ids, pos).sampling_config == engine.sampling_config,
{
}

/// Each token is decoded on its own: the texts of tokens are the text of each of them, one
/// after the other.
pub proof fn pieces_are_decoded_one_by_one(t: TokenizerView, before: Seq<usize>, id: usize)
    ensures
        pieces(t, before.push(id)) == pieces(t, before) + t.decoding(seq![id]),
        pieces(t, Seq::empty()) == Seq::<char>::empty(),
{
    let all = before.push(id);
    text::lemma_flat_map_step(all, piece_fn(t), before.len() as int);
    assert(all.take(before.len() as int) =~= before);
    assert(all.take(before.len() as int + 1) =~= all);
    assert(pieces(t, Seq::empty()) =~= Seq::<char>::empty());
}

/// An engine takes tokens wherever each of them has a row in the embedding table and every
/// layer takes as many rows.
pub proof fn engines_take_what_their_layers_take<T: Scalar>(
    engine: EngineView<T>,
    ids: Seq<usize>,
    pos: int,
)
    requires
        engine.model.wf(),
        ids.len() > 0,
        pos + ids.len() <= usize::MAX,
        ids.len() * engine.model.hidden_size <= usize::MAX,
        ids.len() * engine.model.lm_head.shape[0] <= usize::MAX,
        forall|i: int|
            0 <= i < ids.len() ==> #[trigger] ids[i] < engine.model.embed_tokens.shape[0],
        forall|k: int|
            0 <= k < engine.model.layers.len() ==> (#[trigger] engine.model.layers[k]).self_attn.takes(
                ids.len() as int,
                pos,
                engine.model.kv_caches[k].rows(),
            ) && ids.len() * engine.model.layers[k].ffn.intermediate() <= usize::MAX,
    ensures
        engine.takes(ids, pos),
{
    let m = engine.model;
    assert forall|k: int| 0 <= k < m.layers.len() implies (
    #[trigger] m.layers[k]).accepts_rows(
        ids.len() as int,
        m.hidden_size as int,
        pos,
        m.kv_caches[k],
    ) by {
        assert(m.layers[k].wf() && m.layers[k].weights_fit(m.hidden_size as int));
        assert(m.layers[k].self_attn.takes(ids.len() as int, pos, m.kv_caches[k].rows()));
    }
}

/// Any prompt can be encoded where no special token is empty, and text can be generated
/// after one where every layer has room for its tokens and for as many more, every token
/// has a row in the embedding table, and there are no more logits than rows.
pub proof fn room_for_a_text<T: Scalar>(engine: EngineView<T>, prompt: Seq<char>, limit: nat)
    requires
        forall|i: int|
            0 <= i < engine.tokenizer.special.len() ==> (#[trigger] engine.tokenizer.special[i]).0.len()
                > 0,
        ({
            let m = engine.model;
            let ids = engine.tokenizer.encoding(prompt);
            let n = ids.len() as int;
            &&& m.cached() + n + limit <= usize::MAX
            &&& n * m.hidden_size <= usize::MAX
            &&& n * m.lm_head.shape[0] <= usize::MAX
            &&& m.lm_head.shape[0] <= m.embed_tokens.shape[0]
            &&& forall|i: int| 0 <= i < n ==> #[trigger] ids[i] < m.embed_tokens.shape[0]
            &&& forall|k: int|
                0 <= k < m.layers.len() ==> (#[trigger] m.layers[k]).self_attn.has_room(
                    n,
                    m.cached(),
                    m.kv_caches[k].rows(),
                    limit as int,
                ) && n * m.layers[k].ffn.intermediate() <= usize::MAX
        }),
    ensures
        engine.tokenizer.can_encode(prompt),
        engine.has_room_for(prompt, limit),
{
    let m = engine.model;
    let n = engine.tokenizer.encoding(prompt).len() as int;
    assert forall|k: int| 0 <= k < m.layers.len() implies (#[trigger] m.layers[k]).has_room(
        n,
        m.cached(),
        m.kv_caches[k].rows(),
        limit as int,
    ) by {
        assert(m.layers[k].self_attn.has_room(
            n,
            m.cached(),
            m.kv_caches[k].rows(),
            limit as int,
        ));
    }
}

} // verus!
