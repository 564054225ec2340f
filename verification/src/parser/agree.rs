//! The two ways of parsing build the same document.
use vstd::prelude::*;
use crate::parser::speculative::{
    drained,
    speculative_spec,
    stream_halts,
    stream_run,
    stream_start,
    lemma_stream_halted,
    BuilderModel,
    Streaming,
};
use crate::parser::synchronous::sync_spec;
use crate::queue_iterator::QueueModel;
use crate::token::TokenModel;
use crate::tokenizer::frame::{lemma_step, lift};
use crate::tokenizer::state::{halts, lemma_halted, run, step_spec, Machine, State};
use crate::tokenizer::store::StoreModel;

verus! {

impl BuilderModel {
    /// Taking one list of tokens and then another is taking the two lists
    /// joined.
    pub proof fn lemma_feed_add(self, first: Seq<TokenModel>, second: Seq<TokenModel>)
        ensures
            self.feed(first + second) == self.feed(first).feed(second),
        decreases second.len(),
    {
        if second.len() == 0 {
            assert(first + second == first);
        } else {
            assert((first + second).drop_last() == first + second.drop_last());
            assert((first + second).last() == second.last());
            self.lemma_feed_add(first, second.drop_last());
        }
    }
}

/// Step for step, a streaming parse has the tokenizer where tokenizing the
/// whole source has it, and its builder has taken the tokens that
/// tokenizing has made.
pub proof fn lemma_stream_follows(store: StoreModel, stream: QueueModel, steps: nat)
    ensures
        stream_run(stream_start(store, stream), steps) == ({
            let machine = run(Machine { state: Some(State::Data), store, stream }, steps);
            Streaming {
                machine: Machine { store: drained(machine.store), ..machine },
                builder: BuilderModel::start().feed(machine.store.tokens),
            }
        }),
    decreases steps,
{
    if steps > 0 {
        lemma_stream_follows(store, stream, (steps - 1) as nat);
        let machine = run(Machine { state: Some(State::Data), store, stream }, (steps - 1) as nat);
        let streaming = stream_run(stream_start(store, stream), (steps - 1) as nat);
        let bare = streaming.machine;
        let tokens = machine.store.tokens;
        assert(tokens + Seq::<TokenModel>::empty() == tokens);
        assert(lift(bare, tokens) == machine);
        lemma_step(bare, tokens);
        let stepped = step_spec(bare);
        let next = step_spec(machine);
        assert(next == lift(stepped, tokens));
        assert(drained(next.store) == drained(stepped.store));
        BuilderModel::start().lemma_feed_add(tokens, stepped.store.tokens);
    }
}

/// A streaming parse sees the end of the input when tokenizing the whole
/// source does.
pub proof fn lemma_halts_alike(store: StoreModel, stream: QueueModel, steps: nat)
    ensures
        stream_halts(store, stream, steps) == halts(store, stream, steps),
{
    lemma_stream_follows(store, stream, steps);
}

/// Whichever way a source is parsed, the builder takes the same tokens in
/// the same order, and the same document is built. This holds of every
/// source whose end the tokenizer reaches.
pub proof fn lemma_modes_agree(store: StoreModel, stream: QueueModel, steps: nat)
    requires
        halts(store, stream, steps),
    ensures
        speculative_spec(store, stream).0 == sync_spec(store, stream).0,
{
    lemma_stream_follows(store, stream, steps);
    lemma_halted(store, stream, steps);
    lemma_stream_halted(store, stream, steps);
    let machine = run(Machine { state: Some(State::Data), store, stream }, steps);
    let tokens = machine.store.tokens;
    let end = TokenModel::EOF { location: machine.stream.locus() };
    assert(tokens.push(end).drop_last() == tokens);
    assert(tokens.push(end).last() == end);
}

} // verus!
