//! Token usage per API key, added up as requests succeed.
use vstd::prelude::*;

use crate::storage::{CounterStore, RedisPool};
use crate::text::concat;
use crate::types::{KeyMeta, Usage};

verus! {

/// The counter key of the input tokens of key `key_id`.
pub open spec fn input_tokens_key(key_id: Seq<char>) -> Seq<char> {
    "usage:key:"@ + key_id + ":input_tokens"@
}

/// The counter key of the output tokens of key `key_id`.
pub open spec fn output_tokens_key(key_id: Seq<char>) -> Seq<char> {
    "usage:key:"@ + key_id + ":output_tokens"@
}

/// The two counter keys of `key_id`: input tokens, then output tokens.
pub fn usage_keys(key_id: &str) -> (keys: (String, String))
    ensures
        keys.0@ == input_tokens_key(key_id@),
        keys.1@ == output_tokens_key(key_id@),
{
    let head = concat("usage:key:", key_id);
    let input = concat(head.as_str(), ":input_tokens");
    let output = concat(head.as_str(), ":output_tokens");
    (input, output)
}

/// The two counter keys of a key differ.
pub proof fn lemma_usage_keys_differ(key_id: Seq<char>)
    ensures
        input_tokens_key(key_id) != output_tokens_key(key_id),
{
    reveal_strlit(":input_tokens");
    reveal_strlit(":output_tokens");
    let a = input_tokens_key(key_id);
    let b = output_tokens_key(key_id);
    let n: int = ("usage:key:"@.len() + key_id.len()) as int;
    assert(a[n + 1] == 'i');
    assert(b[n + 1] == 'o');
}

/// Different keys have different input counters, and different output
/// counters; no input counter is an output counter.
proof fn lemma_usage_keys_apart(a: Seq<char>, b: Seq<char>)
    ensures
        input_tokens_key(a) == input_tokens_key(b) ==> a == b,
        output_tokens_key(a) == output_tokens_key(b) ==> a == b,
        input_tokens_key(a) != output_tokens_key(b),
{
    reveal_strlit("usage:key:");
    reveal_strlit(":input_tokens");
    reveal_strlit(":output_tokens");
    assert("usage:key:"@.len() == 10);
    assert(":input_tokens"@.len() == 13);
    assert(":output_tokens"@.len() == 14);
    let ia = input_tokens_key(a);
    let ib = input_tokens_key(b);
    let oa = output_tokens_key(a);
    let ob = output_tokens_key(b);
    assert(ia.len() == 23 + a.len());
    assert(ib.len() == 23 + b.len());
    assert(oa.len() == 24 + a.len());
    assert(ob.len() == 24 + b.len());
    if ia == ib {
        assert(a.len() == b.len());
        assert(a =~= ia.subrange(10, 10 + a.len() as int));
        assert(b =~= ib.subrange(10, 10 + b.len() as int));
    }
    if oa == ob {
        assert(a.len() == b.len());
        assert(a =~= oa.subrange(10, 10 + a.len() as int));
        assert(b =~= ob.subrange(10, 10 + b.len() as int));
    }
    if ia == ob {
        let l = ia.len() as int;
        assert(ia[l - 13] == ':');
        assert(ob[l - 13] == 'o');
    }
}

/// `after` is `before` with one successful request of `key_id` recorded, as
/// `record_success` leaves it.
pub open spec fn recorded(before: UsageRecorder, after: UsageRecorder, key_id: Seq<char>, usage: Usage) -> bool {
    &&& after.total(input_tokens_key(key_id)) == before.total(input_tokens_key(key_id))
        + usage.input_tokens
    &&& after.total(output_tokens_key(key_id)) == before.total(output_tokens_key(key_id))
        + usage.output_tokens
    &&& forall|k: Seq<char>|
        k != input_tokens_key(key_id) && k != output_tokens_key(key_id) ==> after.total(k)
            == before.total(k)
}

/// The input tokens of the requests of `key_id` among `records`.
pub open spec fn input_used(records: Seq<(Seq<char>, Usage)>, key_id: Seq<char>) -> nat
    decreases records.len(),
{
    if records.len() == 0 {
        0
    } else {
        input_used(records.drop_last(), key_id) + if records.last().0 == key_id {
            records.last().1.input_tokens as nat
        } else {
            0
        }
    }
}

/// The output tokens of the requests of `key_id` among `records`.
pub open spec fn output_used(records: Seq<(Seq<char>, Usage)>, key_id: Seq<char>) -> nat
    decreases records.len(),
{
    if records.len() == 0 {
        0
    } else {
        output_used(records.drop_last(), key_id) + if records.last().0 == key_id {
            records.last().1.output_tokens as nat
        } else {
            0
        }
    }
}

/// Whether a counter key is no key's input or output counter.
pub open spec fn is_other_counter(k: Seq<char>) -> bool {
    forall|id: Seq<char>| k != #[trigger] input_tokens_key(id) && k != output_tokens_key(id)
}

/// Starting from a recorder with every total at zero, each key's input and
/// output totals are the sums of the tokens of its recorded requests, in
/// whatever order they were recorded; every other counter stays at zero.
pub proof fn lemma_usage_totals_are_sums(states: Seq<UsageRecorder>, records: Seq<(Seq<char>, Usage)>)
    requires
        states.len() == records.len() + 1,
        forall|k: Seq<char>| states[0].total(k) == 0,
        forall|i: int|
            0 <= i < records.len() ==> recorded(
                #[trigger] states[i],
                states[i + 1],
                records[i].0,
                records[i].1,
            ),
    ensures
        forall|id: Seq<char>|
            states.last().total(input_tokens_key(id)) == input_used(records, id)
                && states.last().total(output_tokens_key(id)) == output_used(records, id),
        forall|k: Seq<char>| is_other_counter(k) ==> states.last().total(k) == 0,
    decreases records.len(),
{
    if records.len() == 0 {
        assert(states.last() == states[0]);
    } else {
        let n = records.len() - 1;
        let earlier = states.drop_last();
        let rest = records.drop_last();
        assert forall|i: int| 0 <= i < rest.len() implies recorded(
            #[trigger] earlier[i],
            earlier[i + 1],
            rest[i].0,
            rest[i].1,
        ) by {
            assert(earlier[i] == states[i] && earlier[i + 1] == states[i + 1]);
            assert(recorded(states[i], states[i + 1], records[i].0, records[i].1));
        }
        lemma_usage_totals_are_sums(earlier, rest);
        let before = states[n];
        let after = states[n + 1];
        let (last_id, u) = records[n];
        assert(recorded(before, after, last_id, u));
        assert(earlier.last() == before);
        assert(states.last() == after);
        assert(records.last() == records[n]);
        assert forall|id: Seq<char>|
            states.last().total(input_tokens_key(id)) == input_used(records, id)
                && states.last().total(output_tokens_key(id)) == output_used(records, id) by {
            lemma_usage_keys_apart(id, last_id);
            lemma_usage_keys_apart(last_id, id);
            assert(before.total(input_tokens_key(id)) == input_used(rest, id));
            assert(before.total(output_tokens_key(id)) == output_used(rest, id));
        }
        assert forall|k: Seq<char>| is_other_counter(k) implies states.last().total(k) == 0 by {
            assert(k != input_tokens_key(last_id) && k != output_tokens_key(last_id));
            assert(before.total(k) == 0);
        }
    }
}

/// Adds up the tokens that each API key has used.
#[derive(Debug)]
pub struct UsageRecorder {
    counters: CounterStore,
}

impl UsageRecorder {
    /// Well-formedness of the counters.
    pub closed spec fn wf(&self) -> bool {
        self.counters.wf()
    }

    /// The total recorded under a counter key.
    pub closed spec fn total(&self, key: Seq<char>) -> nat {
        self.counters.total(key)
    }

    /// The shared store that the totals are also written to, if any.
    pub closed spec fn shared_store(&self) -> Option<RedisPool> {
        self.counters.shared_store()
    }

    /// A recorder with every total at zero.
    pub fn new(redis: Option<RedisPool>) -> (r: Self)
        ensures
            r.wf(),
            r.shared_store() == redis,
            forall|k: Seq<char>| r.total(k) == 0,
    {
        UsageRecorder { counters: CounterStore::new(redis) }
    }

    /// Adds the input and output tokens of one successful request to the
    /// totals of its key; the model does not enter the totals.
    pub fn record_success(&mut self, key: &KeyMeta, model: &str, usage: &Usage)
        requires
            old(self).wf(),
            old(self).total(input_tokens_key(key.key_id@)) + usage.input_tokens <= u64::MAX,
            old(self).total(output_tokens_key(key.key_id@)) + usage.output_tokens <= u64::MAX,
        ensures
            final(self).wf(),
            final(self).shared_store() == old(self).shared_store(),
            final(self).total(input_tokens_key(key.key_id@)) == old(self).total(
                input_tokens_key(key.key_id@),
            ) + usage.input_tokens,
            final(self).total(output_tokens_key(key.key_id@)) == old(self).total(
                output_tokens_key(key.key_id@),
            ) + usage.output_tokens,
            forall|k: Seq<char>|
                k != input_tokens_key(key.key_id@) && k != output_tokens_key(key.key_id@)
                    ==> final(self).total(k) == old(self).total(k),
    {
        proof {
            lemma_usage_keys_differ(key.key_id@);
        }
        let (input_key, output_key) = usage_keys(key.key_id.as_str());
        self.counters.incr_total(input_key.as_str(), usage.input_tokens);
        self.counters.incr_total(output_key.as_str(), usage.output_tokens);
    }

    /// The total recorded under a counter key.
    pub fn total_for(&self, key: &str) -> (res: u64)
        requires
            self.wf(),
        ensures
            res == self.total(key@),
    {
        self.counters.total_for(key)
    }
}

} // verus!
