//! What an engine remembers of a conversation.
use crate::inference::{
    earlier_choices_do_not_matter, generating_keeps_the_parts, lemma_run_ends, lemma_run_goes_on, lemma_run_of_nothing,
    last_row, run, EngineView,
};
use crate::model::QwenModelView;
use crate::passes;
use crate::passes::{later_tokens_are_nothing, takes_in_parts};
use crate::scalar::Scalar;
use vstd::prelude::*;

verus! {

/// Every token of a run is in the caches, with those that it began with.
pub proof fn generated_tokens_are_cached<T: Scalar>(
    engine: EngineView<T>,
    ids: Seq<usize>,
    pos: int,
    limit: nat,
)
    requires
        engine.model.weights_wf(),
        engine.model.kv_caches.len() == engine.model.layers.len(),
        forall|k: int|
            0 <= k < engine.model.layers.len() ==> (#[trigger] engine.model.kv_caches[k]).rows()
                + ids.len() + run(engine, ids, pos, limit).tokens.len() <= usize::MAX,
    ensures
        ({
            let r = run(engine, ids, pos, limit);
            engine.has_seen(r.engine, (ids.len() + r.tokens.len()) as int)
        }),
    decreases limit,
{
    let r = run(engine, ids, pos, limit);
    let m = engine.model;
    if ids.len() == 0 {
        lemma_run_of_nothing(engine, ids, pos, limit);
    } else {
        let next = engine.fed(ids, pos);
        assert forall|k: int| 0 <= k < m.layers.len() implies (
        #[trigger] next.model.kv_caches[k]).rows() == m.kv_caches[k].rows() + ids.len() by {
            assert(m.kv_caches[k].rows() + ids.len() <= usize::MAX);
            passes::seen_tokens_are_cached(m, ids, pos, k);
        }
        if limit == 0 || engine.next_token(ids, pos) == engine.tokenizer.eos() {
            lemma_run_ends(engine, ids, pos, limit);
        } else {
            let one = seq![engine.next_token(ids, pos)];
            lemma_run_goes_on(engine, ids, pos, limit);
            assert(next.model.weights_wf());
            assert forall|k: int| 0 <= k < m.layers.len() implies (
            #[trigger] next.model.kv_caches[k]).rows() + one.len() + run(
                next,
                one,
                pos + ids.len(),
                (limit - 1) as nat,
            ).tokens.len() <= usize::MAX by {
                assert(m.kv_caches[k].rows() + ids.len() + r.tokens.len() <= usize::MAX);
            }
            generated_tokens_are_cached(next, one, pos + ids.len(), (limit - 1) as nat);
            assert forall|k: int| 0 <= k < m.layers.len() implies (
            #[trigger] r.engine.model.kv_caches[k]).rows() == m.kv_caches[k].rows() + ids.len()
                + r.tokens.len() by {
                assert(next.model.kv_caches[k].rows() == m.kv_caches[k].rows() + ids.len());
            }
        }
    }
}

/// Without a reset the conversation is remembered: the next text is generated by the
/// engine that has every token of the last prompt and of its answer in the caches,
/// and at the positions that follow theirs.
pub proof fn conversation_goes_on<T: Scalar>(
    engine: EngineView<T>,
    first: Seq<char>,
    limit: nat,
    second: Seq<char>,
    more: nat,
)
    requires
        engine.model.weights_wf(),
        engine.model.kv_caches.len() == engine.model.layers.len(),
        engine.model.layers.len() > 0,
        forall|k: int|
            0 <= k < engine.model.layers.len() ==> (#[trigger] engine.model.kv_caches[k]).rows()
                + engine.tokenizer.encoding(first).len() + engine.generation(
                first,
                limit,
            ).tokens.len() <= usize::MAX,
    ensures
        ({
            let r = engine.generation(first, limit);
            let seen = engine.tokenizer.encoding(first).len() + r.tokens.len();
            &&& engine.has_seen(r.engine, seen as int)
            &&& r.engine.generation(second, more) == run(
                r.engine,
                engine.tokenizer.encoding(second),
                engine.model.cached() + seen,
                more,
            )
        }),
{
    let ids = engine.tokenizer.encoding(first);
    let r = engine.generation(first, limit);
    generated_tokens_are_cached(engine, ids, engine.model.cached(), limit);
    generating_keeps_the_parts(engine, ids, engine.model.cached(), limit);
    assert(r.engine.model.kv_caches[0].rows() == engine.model.kv_caches[0].rows() + ids.len()
        + r.tokens.len());
}

/// The last row of the logits after `b` is the same whether `a` was seen before it or
/// with it.
proof fn lemma_same_last_row<T: Scalar>(
    m: QwenModelView<T>,
    a: Seq<usize>,
    b: Seq<usize>,
    pos: int,
)
    requires
        takes_in_parts(m, a, b, pos),
        later_tokens_are_nothing(m, a, b, pos),
        b.len() > 0,
    ensures
        last_row(m.after(a, pos).logits(b, pos + a.len())) == last_row(m.logits(a + b, pos)),
{
    let next = m.after(a, pos);
    passes::last_logits_in_parts(m, a, b, pos);
    passes::lemma_last_logits(m, a + b, pos);
    assert(next.weights_wf());
    passes::lemma_last_logits(next, b, pos + a.len());
}

/// What was seen need not be passed through the model again: the token that is chosen
/// after `b`, where `a` was seen before, is the one that is chosen where `a` and `b`
/// are seen at once, and the caches are the same, wherever the later tokens are nothing
/// to the earlier ones.
pub proof fn seeing_in_parts<T: Scalar>(
    engine: EngineView<T>,
    a: Seq<usize>,
    b: Seq<usize>,
    pos: int,
)
    requires
        takes_in_parts(engine.model, a, b, pos),
        later_tokens_are_nothing(engine.model, a, b, pos),
        b.len() > 0,
    ensures
        ({
            let seen = engine.fed(a, pos);
            let at_once = EngineView { draws: seen.draws, ..engine };
            &&& seen.next_token(b, pos + a.len()) == at_once.next_token(a + b, pos)
            &&& seen.fed(b, pos + a.len()) == at_once.fed(a + b, pos)
        }),
{
    passes::passing_in_parts(engine.model, a, b, pos);
    lemma_same_last_row(engine.model, a, b, pos);
}

/// Whether the tokens that come one by one after `seen` can be seen together with what
/// came before them, and are nothing to it.
#[verifier::opaque]
pub open spec fn comes_one_by_one<T: Scalar>(
    m: QwenModelView<T>,
    seen: Seq<usize>,
    tokens: Seq<usize>,
    pos: int,
) -> bool {
    forall|i: int|
        0 <= i < tokens.len() ==> takes_in_parts(
            m,
            seen + tokens.take(i),
            seq![#[trigger] tokens[i]],
            pos,
        ) && later_tokens_are_nothing(m, seen + tokens.take(i), seq![tokens[i]], pos)
}

/// Where a token and others come one by one, the others come one by one after it.
proof fn lemma_one_less_to_come<T: Scalar>(
    m: QwenModelView<T>,
    seen: Seq<usize>,
    token: usize,
    later: Seq<usize>,
    pos: int,
)
    requires
        comes_one_by_one(m, seen, seq![token] + later, pos),
    ensures
        comes_one_by_one(m, seen + seq![token], later, pos),
{
    let tokens = seq![token] + later;
    let further = seen + seq![token];
    reveal(comes_one_by_one);
    assert forall|i: int| 0 <= i < later.len() implies takes_in_parts(
        m,
        further + later.take(i),
        seq![#[trigger] later[i]],
        pos,
    ) && later_tokens_are_nothing(m, further + later.take(i), seq![later[i]], pos) by {
        assert(tokens[i + 1] == later[i]);
        assert(seen + tokens.take(i + 1) =~= further + later.take(i));
    }
}

/// The first token that comes can be seen with what came before it, and leaves the
/// model that has seen both at once.
proof fn lemma_first_to_come<T: Scalar>(
    m: QwenModelView<T>,
    seen: Seq<usize>,
    token: usize,
    later: Seq<usize>,
    pos: int,
)
    requires
        comes_one_by_one(m, seen, seq![token] + later, pos),
    ensures
        m.after(seen, pos).after(seq![token], pos + seen.len()) == m.after(
            seen + seq![token],
            pos,
        ),
{
    let tokens = seq![token] + later;
    reveal(comes_one_by_one);
    assert(tokens[0] == token);
    assert(seen + tokens.take(0) =~= seen);
    passes::passing_in_parts(m, seen, seq![token], pos);
}

/// Generating on from a model that has seen `seen` leaves the model that has seen it
/// and the tokens of the run at once.
proof fn lemma_run_is_one_pass<T: Scalar>(
    m: QwenModelView<T>,
    seen: Seq<usize>,
    pos: int,
    engine: EngineView<T>,
    token: usize,
    limit: nat,
)
    requires
        engine.model == m.after(seen, pos),
        comes_one_by_one(
            m,
            seen,
            seq![token] + run(engine, seq![token], pos + seen.len(), limit).tokens,
            pos,
        ),
    ensures
        run(engine, seq![token], pos + seen.len(), limit).engine.model == m.after(
            seen + (seq![token] + run(engine, seq![token], pos + seen.len(), limit).tokens),
            pos,
        ),
    decreases limit,
{
    let one = seq![token];
    let at = pos + seen.len();
    let r = run(engine, one, at, limit);
    let tokens = one + r.tokens;
    lemma_first_to_come(m, seen, token, r.tokens, pos);
    let next = engine.fed(one, at);
    assert(next.model == m.after(seen + one, pos));
    let chosen = engine.next_token(one, at);
    if limit == 0 || chosen == engine.tokenizer.eos() {
        lemma_run_ends(engine, one, at, limit);
        assert(tokens =~= one);
    } else {
        lemma_run_goes_on(engine, one, at, limit);
        let further = seen + one;
        let rest = run(next, seq![chosen], pos + further.len(), (limit - 1) as nat).tokens;
        let later = seq![chosen] + rest;
        assert(r.tokens =~= later);
        lemma_one_less_to_come(m, seen, token, later, pos);
        lemma_run_is_one_pass(m, further, pos, next, chosen, (limit - 1) as nat);
        assert(further + later =~= seen + tokens);
    }
}

/// What comes of generating is a model that has seen the prompt and the answer as if
/// they had been given to it at once, wherever later tokens are nothing to earlier
/// ones.
pub proof fn answer_is_seen_with_the_prompt<T: Scalar>(
    engine: EngineView<T>,
    ids: Seq<usize>,
    pos: int,
    limit: nat,
)
    requires
        ids.len() > 0,
        comes_one_by_one(engine.model, ids, run(engine, ids, pos, limit).tokens, pos),
    ensures
        run(engine, ids, pos, limit).engine.model == engine.model.after(
            ids + run(engine, ids, pos, limit).tokens,
            pos,
        ),
{
    let r = run(engine, ids, pos, limit);
    let token = engine.next_token(ids, pos);
    if limit == 0 || token == engine.tokenizer.eos() {
        lemma_run_ends(engine, ids, pos, limit);
        assert(ids + r.tokens =~= ids);
    } else {
        lemma_run_goes_on(engine, ids, pos, limit);
        lemma_run_is_one_pass(
            engine.model,
            ids,
            pos,
            engine.fed(ids, pos),
            token,
            (limit - 1) as nat,
        );
    }
}

/// Generating on after `b`, where `a` was seen before, gives what comes of generating
/// after `a` and `b` together.
proof fn lemma_run_in_parts<T: Scalar>(
    engine: EngineView<T>,
    seen: EngineView<T>,
    a: Seq<usize>,
    b: Seq<usize>,
    pos: int,
    limit: nat,
)
    requires
        takes_in_parts(engine.model, a, b, pos),
        later_tokens_are_nothing(engine.model, a, b, pos),
        b.len() > 0,
        seen == (EngineView {
            model: engine.model.after(a, pos),
            draws: seen.draws,
            ..engine
        }),
    ensures
        run(seen, b, pos + a.len(), limit) == run(
            EngineView { draws: seen.draws, ..engine },
            a + b,
            pos,
            limit,
        ),
{
    let at_once = EngineView { draws: seen.draws, ..engine };
    let at = pos + a.len();
    passes::passing_in_parts(engine.model, a, b, pos);
    lemma_same_last_row(engine.model, a, b, pos);
    assert(seen.next_token(b, at) == at_once.next_token(a + b, pos));
    assert(seen.fed(b, at) == at_once.fed(a + b, pos));
    if limit == 0 || seen.next_token(b, at) == seen.tokenizer.eos() {
        lemma_run_ends(seen, b, at, limit);
        lemma_run_ends(at_once, a + b, pos, limit);
    } else {
        lemma_run_goes_on(seen, b, at, limit);
        lemma_run_goes_on(at_once, a + b, pos, limit);
        assert(at + b.len() == pos + (a + b).len());
        assert(run(seen, b, at, limit).tokens =~= run(at_once, a + b, pos, limit).tokens);
    }
}

/// Without a reset the next prompt is answered as if the whole conversation were the
/// prompt: what comes of it is what comes of generating after the last prompt, its
/// answer and the next prompt together, wherever later tokens are nothing to earlier
/// ones. With a seed, or with the largest logit taken every time, an engine that has
/// chosen nothing yet gives the same answer.
pub proof fn next_prompt_is_answered_in_context<T: Scalar>(
    engine: EngineView<T>,
    first: Seq<char>,
    limit: nat,
    second: Seq<char>,
    more: nat,
)
    requires
        engine.model.layers.len() > 0,
        engine.tokenizer.encoding(first).len() > 0,
        engine.tokenizer.encoding(second).len() > 0,
        ({
            let m = engine.model;
            let ids = engine.tokenizer.encoding(first);
            let tokens = engine.generation(first, limit).tokens;
            let next = engine.tokenizer.encoding(second);
            &&& comes_one_by_one(m, ids, tokens, m.cached())
            &&& takes_in_parts(m, ids + tokens, next, m.cached())
            &&& later_tokens_are_nothing(m, ids + tokens, next, m.cached())
        }),
    ensures
        ({
            let r = engine.generation(first, limit);
            let all = engine.tokenizer.encoding(first) + r.tokens + engine.tokenizer.encoding(
                second,
            );
            let pos = engine.model.cached();
            let answer = r.engine.generation(second, more);
            &&& answer == run(EngineView { draws: r.engine.draws, ..engine }, all, pos, more)
            &&& engine.sampling_config.seed is Some || engine.sampling_config.is_greedy()
                ==> answer.tokens == run(engine, all, pos, more).tokens
        }),
{
    let m = engine.model;
    let pos = m.cached();
    let ids = engine.tokenizer.encoding(first);
    let next = engine.tokenizer.encoding(second);
    let r = engine.generation(first, limit);
    let seen = ids + r.tokens;
    let at_once = EngineView { draws: r.engine.draws, ..engine };
    answer_is_seen_with_the_prompt(engine, ids, pos, limit);
    generating_keeps_the_parts(engine, ids, pos, limit);
    lemma_seen_is_counted(m, seen, next, pos);
    lemma_run_in_parts(engine, r.engine, seen, next, pos, more);
    if engine.sampling_config.seed is Some || engine.sampling_config.is_greedy() {
        earlier_choices_do_not_matter(at_once, engine, seen + next, pos, more);
    }
}

/// The positions go on where the tokens that were seen end.
proof fn lemma_seen_is_counted<T: Scalar>(
    m: QwenModelView<T>,
    a: Seq<usize>,
    b: Seq<usize>,
    pos: int,
)
    requires
        m.layers.len() > 0,
        takes_in_parts(m, a, b, pos),
    ensures
        m.after(a, pos).cached() == m.cached() + a.len(),
{
    assert(m.layers[0].accepts_rows(
        (a.len() + b.len()) as int,
        m.hidden_size as int,
        pos,
        m.kv_caches[0],
    ));
    passes::seen_tokens_are_cached(m, a, pos, 0);
}

} // verus!
