//! A whole run over a list of mint accounts: what is asked for after any number of rounds, and
//! what is reported when the user gives up.

use crate::address::address_text;
use crate::batch::{
    all_marked, answers, errors, lemma_record_of, lemma_remaining, mint_texts, own_records,
    records, FetchView, Outcome,
};
use crate::cache::{
    distinct_keys, entry_keys, entry_with_errors, failed_entries, first_occurrences,
    initial_entries, last_error, lemma_failed_entries, lemma_first_occurrences,
    lemma_initial_entries, lemma_initial_keys, lemma_same_keys, remaining_keys, with_errors,
    Entries, ItemView,
};
use crate::error::ErrorView;
use crate::metadata::MetadataView;
use vstd::prelude::*;

verus! {

/// The cache once the outcomes of a round are recorded.
pub open spec fn recorded(cache: Entries, outcomes: Seq<Outcome>) -> Entries {
    all_marked(cache, mint_texts(records(outcomes)))
}

/// The round that follows when the user has the decodes of `list` retried after each of `rounds`,
/// each round given by its outcomes.
pub open spec fn round_after(list: Seq<Seq<char>>, rounds: Seq<Seq<Outcome>>) -> FetchView
    decreases rounds.len(),
{
    if rounds.len() == 0 {
        FetchView { cache: initial_entries(list), mints: list }
    } else {
        let cache = recorded(round_after(list, rounds.drop_last()).cache, rounds.last());
        FetchView { cache, mints: remaining_keys(cache) }
    }
}

/// What is reported when the user gives up after `rounds`.
pub open spec fn report_after(list: Seq<Seq<char>>, rounds: Seq<Seq<Outcome>>) -> Entries {
    failed_entries(with_errors(round_after(list, rounds).cache, errors(rounds.last())))
}

/// A further round is recorded, retried and reported as the steps of a round say: its records are
/// marked in the cache, the next round asks for what is not decoded, and giving up enters its
/// errors and reports what is not decoded.
pub proof fn lemma_run_step(
    list: Seq<Seq<char>>,
    rounds: Seq<Seq<Outcome>>,
    outcomes: Seq<Outcome>,
)
    ensures
        ({
            let before = round_after(list, rounds);
            let after = round_after(list, rounds.push(outcomes));
            &&& after.cache == all_marked(before.cache, mint_texts(records(outcomes)))
            &&& after.mints == remaining_keys(after.cache)
            &&& report_after(list, rounds.push(outcomes)) == failed_entries(
                with_errors(after.cache, errors(outcomes)),
            )
        }),
{
    assert(rounds.push(outcomes).drop_last() =~= rounds);
}

/// Whether the outcomes of a round hold the record of the mint account `mint`.
pub open spec fn succeeds_in(outcomes: Seq<Outcome>, mint: Seq<char>) -> bool {
    exists|i: int|
        0 <= i < outcomes.len() && (#[trigger] outcomes[i] matches Ok(metadata) && address_text(
            metadata.mint,
        ) == mint)
}

/// Whether one of `rounds` gave the record of the mint account `mint`.
pub open spec fn succeeded(rounds: Seq<Seq<Outcome>>, mint: Seq<char>) -> bool {
    exists|k: int| 0 <= k < rounds.len() && succeeds_in(#[trigger] rounds[k], mint)
}

proof fn lemma_records_hold(outcomes: Seq<Outcome>, mint: Seq<char>)
    ensures
        mint_texts(records(outcomes)).contains(mint) <==> succeeds_in(outcomes, mint),
    decreases outcomes.len(),
{
    let keys = mint_texts(records(outcomes));
    if succeeds_in(outcomes, mint) {
        let i = choose|i: int|
            0 <= i < outcomes.len() && (#[trigger] outcomes[i] matches Ok(metadata)
                && address_text(metadata.mint) == mint);
        lemma_record_of(outcomes, i);
        let j = choose|j: int|
            0 <= j < records(outcomes).len() && records(outcomes)[j] == outcomes[i]->Ok_0;
        assert(keys[j] == mint);
    }
    if keys.contains(mint) {
        let rest = outcomes.drop_last();
        lemma_records_hold(rest, mint);
        let j = choose|j: int| 0 <= j < keys.len() && keys[j] == mint;
        if j < records(rest).len() {
            assert(mint_texts(records(rest))[j] == mint);
            assert(succeeds_in(rest, mint));
            let i = choose|i: int|
                0 <= i < rest.len() && (#[trigger] rest[i] matches Ok(metadata) && address_text(
                    metadata.mint,
                ) == mint);
            assert(outcomes[i] == rest[i]);
        } else {
            assert(outcomes[outcomes.len() - 1] is Ok);
        }
    }
}

proof fn lemma_succeeded_step(rounds: Seq<Seq<Outcome>>, mint: Seq<char>)
    requires
        rounds.len() > 0,
    ensures
        succeeded(rounds, mint) <==> succeeded(rounds.drop_last(), mint) || succeeds_in(
            rounds.last(),
            mint,
        ),
{
    let rest = rounds.drop_last();
    if succeeded(rounds, mint) && !succeeds_in(rounds.last(), mint) {
        let k = choose|k: int| 0 <= k < rounds.len() && succeeds_in(#[trigger] rounds[k], mint);
        assert(rest[k] == rounds[k]);
    }
    if succeeded(rest, mint) {
        let k = choose|k: int| 0 <= k < rest.len() && succeeds_in(#[trigger] rest[k], mint);
        assert(rounds[k] == rest[k]);
    }
    assert(rounds[rounds.len() - 1] == rounds.last());
}

/// After any rounds the cache still holds the listed mint accounts, in the order of their first
/// occurrences, and a mint account counts as decoded exactly if one of the rounds gave its record.
pub proof fn lemma_cache_of_a_run(list: Seq<Seq<char>>, rounds: Seq<Seq<Outcome>>)
    ensures
        entry_keys(round_after(list, rounds).cache) == first_occurrences(list),
        distinct_keys(round_after(list, rounds).cache),
        forall|i: int|
            0 <= i < round_after(list, rounds).cache.len() ==> ((#[trigger] round_after(
                list,
                rounds,
            ).cache[i]).1.successful <==> succeeded(rounds, round_after(list, rounds).cache[i].0)),
    decreases rounds.len(),
{
    let after = round_after(list, rounds).cache;
    if rounds.len() == 0 {
        lemma_initial_keys(list);
        lemma_initial_entries(list);
    } else {
        let before = round_after(list, rounds.drop_last()).cache;
        lemma_cache_of_a_run(list, rounds.drop_last());
        lemma_same_keys(before, after);
        assert(entry_keys(after) =~= entry_keys(before));
        assert forall|i: int| 0 <= i < after.len() implies ((#[trigger] after[i]).1.successful
            <==> succeeded(rounds, after[i].0)) by {
            assert(before[i].0 == after[i].0);
            lemma_records_hold(rounds.last(), after[i].0);
            lemma_succeeded_step(rounds, after[i].0);
        }
    }
}

proof fn lemma_remaining_is_filter(entries: Entries, left: spec_fn(Seq<char>) -> bool)
    requires
        forall|i: int|
            0 <= i < entries.len() ==> (left((#[trigger] entries[i]).0)
                <==> !entries[i].1.successful),
    ensures
        remaining_keys(entries) == entry_keys(entries).filter(left),
    decreases entries.len(),
{
    reveal(Seq::filter);
    if entries.len() > 0 {
        let rest = entries.drop_last();
        assert forall|i: int| 0 <= i < rest.len() implies (left((#[trigger] rest[i]).0)
            <==> !rest[i].1.successful) by {
            assert(rest[i] == entries[i]);
        }
        lemma_remaining_is_filter(rest, left);
        assert(entry_keys(entries).drop_last() =~= entry_keys(rest));
        assert(left(entries[entries.len() - 1].0) <==> !entries.last().1.successful);
        assert(remaining_keys(entries) =~= entry_keys(entries).filter(left));
    } else {
        assert(remaining_keys(entries) =~= entry_keys(entries).filter(left));
    }
}

/// After any rounds the next one asks for exactly those of the listed mint accounts whose record
/// none of the rounds gave, each once, in the order of their first occurrences.
pub proof fn lemma_run_asks_for_the_rest(list: Seq<Seq<char>>, rounds: Seq<Seq<Outcome>>)
    requires
        rounds.len() > 0,
    ensures
        round_after(list, rounds).mints == first_occurrences(list).filter(
            |mint: Seq<char>| !succeeded(rounds, mint),
        ),
        round_after(list, rounds).mints.no_duplicates(),
        forall|mint: Seq<char>|
            #[trigger] round_after(list, rounds).mints.contains(mint) <==> list.contains(mint)
                && !succeeded(rounds, mint),
{
    let round = round_after(list, rounds);
    let left = |mint: Seq<char>| !succeeded(rounds, mint);
    lemma_cache_of_a_run(list, rounds);
    lemma_remaining_is_filter(round.cache, left);
    lemma_failed_entries(round.cache);
    lemma_remaining(round.cache);
    lemma_first_occurrences(list);
    assert forall|mint: Seq<char>| #[trigger] round.mints.contains(mint) <==> list.contains(mint)
        && !succeeded(rounds, mint) by {
        let keys = entry_keys(round.cache);
        if round.mints.contains(mint) {
            let i = choose|i: int|
                0 <= i < round.cache.len() && (#[trigger] round.cache[i]).0 == mint
                    && !round.cache[i].1.successful;
            assert(keys[i] == mint);
            assert(first_occurrences(list).contains(mint));
        }
        if list.contains(mint) && !succeeded(rounds, mint) {
            assert(first_occurrences(list).contains(mint));
            let i = choose|i: int| 0 <= i < keys.len() && keys[i] == mint;
            assert(round.cache[i].0 == mint);
        }
    }
}

proof fn lemma_error_of(outcomes: Seq<Outcome>, error: ErrorView)
    ensures
        errors(outcomes).contains(error) <==> exists|i: int|
            0 <= i < outcomes.len() && #[trigger] outcomes[i] == Err::<MetadataView, ErrorView>(error),
    decreases outcomes.len(),
{
    if outcomes.len() > 0 {
        let rest = outcomes.drop_last();
        let last = outcomes.len() - 1;
        lemma_error_of(rest, error);
        if errors(outcomes).contains(error) {
            let j = choose|j: int| 0 <= j < errors(outcomes).len() && errors(outcomes)[j] == error;
            if j < errors(rest).len() {
                assert(errors(rest)[j] == error);
                assert(errors(rest).contains(error));
                let i = choose|i: int|
                    0 <= i < rest.len() && #[trigger] rest[i] == Err::<MetadataView, ErrorView>(error);
                assert(outcomes[i] == rest[i]);
            } else {
                assert(outcomes[last] == Err::<MetadataView, ErrorView>(error));
            }
        }
        if exists|i: int|
            0 <= i < outcomes.len() && #[trigger] outcomes[i] == Err::<MetadataView, ErrorView>(error) {
            let i = choose|i: int|
                0 <= i < outcomes.len() && #[trigger] outcomes[i] == Err::<MetadataView, ErrorView>(error);
            if i < last {
                assert(rest[i] == outcomes[i]);
                assert(errors(rest).contains(error));
                let j = choose|j: int| 0 <= j < errors(rest).len() && errors(rest)[j] == error;
                assert(errors(outcomes)[j] == error);
            } else {
                assert(errors(outcomes)[errors(rest).len() as int] == error);
            }
        }
    }
}

proof fn lemma_last_error_of(failed: Seq<ErrorView>, key: Seq<char>)
    ensures
        last_error(failed, key) matches Some(error) ==> failed.contains(error) && error.account()
            == key,
        last_error(failed, key) is None ==> forall|i: int|
            0 <= i < failed.len() ==> (#[trigger] failed[i]).account() != key,
    decreases failed.len(),
{
    if failed.len() > 0 {
        let rest = failed.drop_last();
        lemma_last_error_of(rest, key);
        assert(failed[failed.len() - 1] == failed.last());
        if failed.last().account() != key {
            if last_error(rest, key) is Some {
                let error = last_error(rest, key)->Some_0;
                let i = choose|i: int| 0 <= i < rest.len() && rest[i] == error;
                assert(failed[i] == error);
            } else {
                assert forall|i: int| 0 <= i < failed.len() implies (
                #[trigger] failed[i]).account() != key by {
                    if i < rest.len() {
                        assert(rest[i] == failed[i]);
                    }
                }
            }
        }
    }
}

proof fn lemma_report_in_order(entries: Entries, failed: Seq<ErrorView>)
    requires
        forall|i: int|
            0 <= i < entries.len() ==> (last_error(failed, (#[trigger] entries[i]).0) is Some
                ==> !entries[i].1.successful),
    ensures
        failed_entries(with_errors(entries, failed)) == failed_entries(entries).map_values(
            |entry: (Seq<char>, ItemView)| entry_with_errors(entry, failed),
        ),
    decreases entries.len(),
{
    reveal(Seq::filter);
    let enter = |entry: (Seq<char>, ItemView)| entry_with_errors(entry, failed);
    if entries.len() > 0 {
        let rest = entries.drop_last();
        assert forall|i: int| 0 <= i < rest.len() implies (last_error(
            failed,
            (#[trigger] rest[i]).0,
        ) is Some ==> !rest[i].1.successful) by {
            assert(rest[i] == entries[i]);
        }
        lemma_report_in_order(rest, failed);
        assert(with_errors(entries, failed).drop_last() =~= with_errors(rest, failed));
        assert(entries[entries.len() - 1] == entries.last());
        assert(failed_entries(with_errors(entries, failed)) =~= failed_entries(entries).map_values(
            enter,
        ));
    } else {
        assert(failed_entries(with_errors(entries, failed)) =~= failed_entries(entries).map_values(
            enter,
        ));
    }
}

/// When the user gives up, and each record of the last round is that of the mint account that was
/// asked for, then exactly the mint accounts whose record no round gave are reported, each once, in
/// the order of their first occurrences in the list, and with the error of its own decode in the
/// last round. A list that repeats a mint account has to be tried again once: of the decodes of one
/// mint account in the first round, one may fail and another succeed.
pub proof fn lemma_run_reports_the_rest(list: Seq<Seq<char>>, rounds: Seq<Seq<Outcome>>)
    requires
        list.no_duplicates() || rounds.len() > 1,
        rounds.len() > 0,
        answers(round_after(list, rounds.drop_last()).mints, rounds.last()),
        own_records(round_after(list, rounds.drop_last()).mints, rounds.last()),
    ensures
        entry_keys(report_after(list, rounds)) == first_occurrences(list).filter(
            |mint: Seq<char>| !succeeded(rounds, mint),
        ),
        forall|j: int|
            0 <= j < report_after(list, rounds).len() ==> exists|i: int|
                0 <= i < rounds.last().len() && (#[trigger] rounds.last()[i] matches Err(error)
                    && round_after(list, rounds.drop_last()).mints[i] == (#[trigger] report_after(
                    list,
                    rounds,
                )[j]).0 && report_after(list, rounds)[j].1 == (ItemView {
                    successful: false,
                    error: Some(error.message()),
                })),
{
    let asked = round_after(list, rounds.drop_last()).mints;
    let last = rounds.last();
    let failed = errors(last);
    let cache = round_after(list, rounds).cache;
    let report = report_after(list, rounds);
    lemma_cache_of_a_run(list, rounds);
    lemma_first_occurrences(list);
    lemma_run_asks_for_the_rest(list, rounds);
    if rounds.drop_last().len() > 0 {
        lemma_run_asks_for_the_rest(list, rounds.drop_last());
    }
    // An entry is undecoded exactly if the last round has an error about it.
    assert forall|k: int| 0 <= k < cache.len() implies (last_error(
        failed,
        (#[trigger] cache[k]).0,
    ) is Some <==> !cache[k].1.successful) by {
        let mint = cache[k].0;
        lemma_last_error_of(failed, mint);
        lemma_succeeded_step(rounds, mint);
        if last_error(failed, mint) is Some {
            let error = last_error(failed, mint)->Some_0;
            lemma_error_of(last, error);
            let i = choose|i: int|
                0 <= i < last.len() && #[trigger] last[i] == Err::<MetadataView, ErrorView>(error);
            assert(asked[i] == mint);
            assert(asked.contains(mint));
            if succeeds_in(last, mint) {
                let other = choose|other: int|
                    0 <= other < last.len() && (#[trigger] last[other] matches Ok(metadata)
                        && address_text(metadata.mint) == mint);
                assert(asked[other] == mint);
                assert(other != i);
            }
        }
        if !cache[k].1.successful {
            assert(entry_keys(cache)[k] == mint);
            assert(first_occurrences(list).contains(mint));
            assert(asked.contains(mint));
            let i = choose|i: int| 0 <= i < asked.len() && asked[i] == mint;
            assert(last[i] is Err);
            let error = last[i]->Err_0;
            lemma_error_of(last, error);
            let j = choose|j: int| 0 <= j < failed.len() && failed[j] == error;
            assert(failed[j].account() == mint);
        }
    }
    lemma_report_in_order(cache, failed);
    lemma_failed_entries(cache);
    assert(entry_keys(report) =~= remaining_keys(cache));
    assert forall|j: int| 0 <= j < report.len() implies exists|i: int|
        0 <= i < last.len() && (#[trigger] last[i] matches Err(error) && asked[i] == (
        #[trigger] report[j]).0 && report[j].1 == (ItemView {
            successful: false,
            error: Some(error.message()),
        })) by {
        let entry = failed_entries(cache)[j];
        assert(failed_entries(cache).contains(entry));
        assert(cache.contains(entry));
        let k = choose|k: int| 0 <= k < cache.len() && cache[k] == entry;
        assert(last_error(failed, cache[k].0) is Some);
        let error = last_error(failed, entry.0)->Some_0;
        lemma_last_error_of(failed, entry.0);
        lemma_error_of(last, error);
        let i = choose|i: int|
            0 <= i < last.len() && #[trigger] last[i] == Err::<MetadataView, ErrorView>(error);
        assert(asked[i] == report[j].0);
    }
}

} // verus!
