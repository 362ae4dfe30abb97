//! What a node does with an answer of the telemetry feed: it submits its own
//! drone's records, once per new feed version.

use vstd::prelude::*;
use crate::records::{Duplicate, LogRecord};

verus! {

/// An answer is news when its version differs from the last version seen
/// and it carries records.
pub open spec fn is_fresh(last_version: Seq<char>, to_version: Seq<char>, n_records: nat) -> bool {
    to_version != last_version && n_records > 0
}

/// The records that carry the given public key, in feed order.
pub open spec fn own_records(records: Seq<LogRecord>, key: Seq<char>) -> Seq<LogRecord> {
    records.filter(|r: LogRecord| r.public_key_hex@ == key)
}

/// Handles one feed answer (`to_version`, `data`): where it is news, the
/// last version seen becomes `to_version` and the records of this node's
/// drone are returned for submission; otherwise nothing changes and nothing
/// is submitted.
pub fn accept_feed(
    last_version: &mut String,
    to_version: String,
    data: Vec<LogRecord>,
    my_pub_key: &String,
) -> (submit: Vec<LogRecord>)
    ensures
        is_fresh(old(last_version)@, to_version@, data@.len()) ==> {
            &&& final(last_version)@ == to_version@
            &&& submit@ == own_records(data@, my_pub_key@)
        },
        !is_fresh(old(last_version)@, to_version@, data@.len()) ==> {
            &&& *final(last_version) == *old(last_version)
            &&& submit@.len() == 0
        },
        (to_version@ != old(last_version)@ && data@.len() > 0) ==> {
            &&& final(last_version)@ == to_version@
            &&& submit@ == data@.filter(|r: LogRecord| r.public_key_hex@ == my_pub_key@)
        },
        !(to_version@ != old(last_version)@ && data@.len() > 0) ==> {
            &&& *final(last_version) == *old(last_version)
            &&& submit@ == Seq::<LogRecord>::empty()
        },
{
    let mut submit: Vec<LogRecord> = Vec::new();
    if to_version == *last_version || data.len() == 0 {
        return submit;
    }
    *last_version = to_version;
    let mut i: usize = 0;
    while i < data.len()
        invariant
            i <= data@.len(),
            submit@ == own_records(data@.take(i as int), my_pub_key@),
        decreases data@.len() - i,
    {
        proof {
            let t = data@.take(i as int + 1);
            assert(t.drop_last() =~= data@.take(i as int));
            assert(t.last() == data@[i as int]);
            reveal(Seq::filter);
        }
        if data[i].public_key_hex == *my_pub_key {
            submit.push(data[i].duplicate());
        }
        i = i + 1;
    }
    assert(data@.take(data@.len() as int) =~= data@);
    submit
}

/// Every element of a filtered sequence is an element of the sequence.
pub proof fn lemma_filter_elements_come_from_source<A>(s: Seq<A>, pred: spec_fn(A) -> bool)
    ensures
        forall|i: int| 0 <= i < s.filter(pred).len() ==> s.contains(#[trigger] s.filter(pred)[i]),
    decreases s.len(),
{
    reveal(Seq::filter);
    if s.len() > 0 {
        lemma_filter_elements_come_from_source(s.drop_last(), pred);
        let f = s.filter(pred);
        let g = s.drop_last().filter(pred);
        assert forall|i: int| 0 <= i < f.len() implies s.contains(#[trigger] f[i]) by {
            if i < g.len() {
                assert(f[i] == g[i]);
                assert(s.drop_last().contains(g[i]));
                let j = choose|j: int| 0 <= j < s.drop_last().len() && s.drop_last()[j] == g[i];
                assert(s[j] == g[i]);
            } else {
                assert(f[i] == s.last());
                assert(s[s.len() - 1] == s.last());
            }
        }
    }
}

/// What a node submits of a feed answer: the feed's own records of the
/// node's drone, each exactly as the feed gave it (every field unchanged),
/// all of them, in feed order; and nothing of another drone.
pub proof fn lemma_own_records_are_unchanged_feed_records(records: Seq<LogRecord>, my_pub_key: String)
    ensures
        own_records(records, my_pub_key@) == records.filter(
            |r: LogRecord| r.public_key_hex@ == my_pub_key@,
        ),
        own_records(records, my_pub_key@).len() <= records.len(),
        forall|i: int|
            0 <= i < own_records(records, my_pub_key@).len() ==> {
                &&& records.contains(#[trigger] own_records(records, my_pub_key@)[i])
                &&& own_records(records, my_pub_key@)[i].public_key_hex@ == my_pub_key@
            },
        forall|i: int|
            0 <= i < records.len() && records[i].public_key_hex@ == my_pub_key@ ==> own_records(
                records,
                my_pub_key@,
            ).contains(#[trigger] records[i]),
{
    broadcast use vstd::seq_lib::group_filter_ensures;

    lemma_filter_elements_come_from_source(records, |r: LogRecord| r.public_key_hex@ == my_pub_key@);
    assert forall|i: int|
        0 <= i < records.len() && records[i].public_key_hex@ == my_pub_key@ implies own_records(
        records,
        my_pub_key@,
    ).contains(#[trigger] records[i]) by {
        records.lemma_filter_contains(|r: LogRecord| r.public_key_hex@ == my_pub_key@, i);
    }
}

/// A feed answer is news once: after a fresh answer has been handled, the
/// same answer again is no longer news.
pub proof fn lemma_answer_is_news_once(last_version: Seq<char>, to_version: Seq<char>, n: nat)
    ensures
        !is_fresh(to_version, to_version, n),
        is_fresh(last_version, to_version, n) <==> (to_version != last_version && n > 0),
{
}

} // verus!
