//! Decoding of a list of mint accounts: in rounds, until every account is decoded or the user
//! gives up.
//!
//! A round asks the network for every mint account that is left ([`FetchRound`]), writes what was
//! decoded to files ([`WriteRound`]) and, if decodes failed, asks the user whether to retry
//! ([`AskRound`]).

use crate::address::{address_text, address_to_string};
use crate::cache::{
    distinct_keys, entry_views, failed_entries, failures, has_key, initial_entries, last_error,
    lemma_failed_entries, lemma_initial_entries, lemma_same_keys, marked, remaining_keys,
    with_errors, CacheItem, DecodeCache, Entries, ItemView,
};
use crate::decode::{decode_outcome, decode_view, DecodeResults};
use crate::error::{DecodeError, ErrorView};
use crate::metadata::{Metadata, MetadataView};
use crate::text::{decimal, decimal_text, texts};
use vstd::prelude::*;

verus! {

/// The file that keeps the failures of a batch.
pub const CACHE_FILE_NAME: &'static str = "metaboss-cache-decode.json";

/// How many files are open at the same time at most.
pub const OPEN_FILES_LIMIT: usize = 100;

/// The outcome of a decode.
pub type Outcome = Result<MetadataView, ErrorView>;

/// The outcomes of a list of decodes.
pub open spec fn outcomes(results: Seq<Result<Metadata, DecodeError>>) -> Seq<Outcome> {
    results.map_values(|result: Result<Metadata, DecodeError>| decode_view(result))
}

/// The records of a list of decodes, in their order.
pub open spec fn records(outcomes: Seq<Outcome>) -> Seq<MetadataView>
    decreases outcomes.len(),
{
    if outcomes.len() == 0 {
        Seq::empty()
    } else {
        match outcomes.last() {
            Ok(metadata) => records(outcomes.drop_last()).push(metadata),
            Err(_) => records(outcomes.drop_last()),
        }
    }
}

/// The errors of a list of decodes, in their order.
pub open spec fn errors(outcomes: Seq<Outcome>) -> Seq<ErrorView>
    decreases outcomes.len(),
{
    if outcomes.len() == 0 {
        Seq::empty()
    } else {
        match outcomes.last() {
            Ok(_) => errors(outcomes.drop_last()),
            Err(error) => errors(outcomes.drop_last()).push(error),
        }
    }
}

/// The texts of the mint accounts of records.
pub open spec fn mint_texts(records: Seq<MetadataView>) -> Seq<Seq<char>> {
    records.map_values(|metadata: MetadataView| address_text(metadata.mint))
}

/// The values of records.
pub open spec fn record_views(records: Seq<Metadata>) -> Seq<MetadataView> {
    records.map_values(|metadata: Metadata| metadata@)
}

/// `entries` with every mint account of `keys` marked as decoded.
pub open spec fn all_marked(entries: Entries, keys: Seq<Seq<char>>) -> Entries {
    entries.map_values(
        |entry: (Seq<char>, ItemView)|
            if keys.contains(entry.0) {
                (entry.0, ItemView { successful: true, error: entry.1.error })
            } else {
                entry
            },
    )
}

/// Whether `outcomes` are those of decodes of `mints`, one for each.
pub open spec fn answers(mints: Seq<Seq<char>>, outcomes: Seq<Outcome>) -> bool {
    &&& outcomes.len() == mints.len()
    &&& forall|i: int|
        0 <= i < outcomes.len() ==> (#[trigger] outcomes[i] matches Err(error) ==> error.account()
            == mints[i])
}

/// Whether the cache has an entry for the mint account of every record.
pub open spec fn all_known(entries: Entries, outcomes: Seq<Outcome>) -> bool {
    forall|i: int|
        0 <= i < outcomes.len() ==> (#[trigger] outcomes[i] matches Ok(metadata) ==> has_key(
            entries,
            address_text(metadata.mint),
        ))
}

/// A round in which the mint accounts `mints` are asked for.
pub struct FetchView {
    pub cache: Entries,
    pub mints: Seq<Seq<char>>,
}

impl FetchView {
    /// Whether the round asks for every mint account that is not decoded, and only for those that
    /// the cache knows.
    pub open spec fn covers(self) -> bool {
        &&& forall|key: Seq<char>|
            #[trigger] remaining_keys(self.cache).contains(key) ==> self.mints.contains(key)
        &&& forall|i: int| 0 <= i < self.mints.len() ==> has_key(self.cache, #[trigger] self.mints[i])
    }
}

/// A round in which the records `pending` are still to be written and the decodes `failed` failed,
/// out of `requested`.
pub struct WriteView {
    pub cache: Entries,
    pub pending: Seq<MetadataView>,
    pub failed: Seq<ErrorView>,
    pub requested: nat,
}

/// A round in which the user is asked whether to retry.
pub struct AskView {
    pub cache: Entries,
    pub failed: Seq<ErrorView>,
    pub requested: nat,
}

/// The mint accounts of a round are asked for.
#[derive(Debug)]
pub struct FetchRound {
    cache: DecodeCache,
    mints: Vec<String>,
}

/// The records of a round are written to files.
#[derive(Debug)]
pub struct WriteRound {
    cache: DecodeCache,
    pending: Vec<Metadata>,
    failed: DecodeResults,
    requested: usize,
}

/// Decodes of a round failed, and the user is asked whether to retry.
#[derive(Debug)]
pub struct AskRound {
    cache: DecodeCache,
    failed: DecodeResults,
    requested: usize,
}

/// The end of a round.
#[derive(Debug)]
pub enum RoundEnd {
    /// No decode of the round failed.
    Complete,
    /// Some failed.
    Failed(AskRound),
}

/// Whether all of `results` are errors, about mint accounts that the cache knows.
spec fn known_failures(entries: Entries, results: Seq<Result<Metadata, DecodeError>>) -> bool {
    &&& forall|i: int| 0 <= i < results.len() ==> (#[trigger] results[i]) is Err
    &&& forall|i: int|
        0 <= i < results.len() ==> has_key(entries, (#[trigger] results[i])->Err_0@.account())
}

impl View for FetchRound {
    type V = FetchView;

    closed spec fn view(&self) -> FetchView {
        FetchView { cache: self.cache@, mints: texts(self.mints@) }
    }
}

impl View for WriteRound {
    type V = WriteView;

    closed spec fn view(&self) -> WriteView {
        WriteView {
            cache: self.cache@,
            pending: record_views(self.pending@),
            failed: failures(self.failed@),
            requested: self.requested as nat,
        }
    }
}

impl View for AskRound {
    type V = AskView;

    closed spec fn view(&self) -> AskView {
        AskView {
            cache: self.cache@,
            failed: failures(self.failed@),
            requested: self.requested as nat,
        }
    }
}

pub(crate) proof fn lemma_remaining(entries: Entries)
    requires
        distinct_keys(entries),
    ensures
        forall|key: Seq<char>|
            #[trigger] remaining_keys(entries).contains(key) <==> exists|i: int|
                0 <= i < entries.len() && (#[trigger] entries[i]).0 == key
                    && !entries[i].1.successful,
{
    lemma_failed_entries(entries);
    let failed = failed_entries(entries);
    assert forall|key: Seq<char>|
        #[trigger] remaining_keys(entries).contains(key) <==> exists|i: int|
            0 <= i < entries.len() && (#[trigger] entries[i]).0 == key && !entries[i].1.successful by {
        if remaining_keys(entries).contains(key) {
            let j = choose|j: int|
                0 <= j < remaining_keys(entries).len() && remaining_keys(entries)[j] == key;
            assert(failed.contains(failed[j]));
            assert(entries.contains(failed[j]));
            let i = choose|i: int| 0 <= i < entries.len() && entries[i] == failed[j];
            assert(entries[i].0 == key);
        }
        if exists|i: int|
            0 <= i < entries.len() && (#[trigger] entries[i]).0 == key
                && !entries[i].1.successful {
            let i = choose|i: int|
                0 <= i < entries.len() && (#[trigger] entries[i]).0 == key
                    && !entries[i].1.successful;
            assert(entries.contains(entries[i]));
            assert(failed.contains(entries[i]));
            let j = choose|j: int| 0 <= j < failed.len() && failed[j] == entries[i];
            assert(remaining_keys(entries)[j] == key);
        }
    }
}

proof fn lemma_one_more_marked(entries: Entries, keys: Seq<Seq<char>>)
    requires
        keys.len() > 0,
    ensures
        marked(all_marked(entries, keys.drop_last()), keys.last()) == all_marked(entries, keys),
{
    let before = keys.drop_last();
    assert forall|key: Seq<char>| keys.contains(key) <==> before.contains(key) || key
        == keys.last() by {
        if keys.contains(key) && key != keys.last() {
            let i = choose|i: int| 0 <= i < keys.len() && keys[i] == key;
            assert(before[i] == key);
        }
        if before.contains(key) {
            let i = choose|i: int| 0 <= i < before.len() && before[i] == key;
            assert(keys[i] == key);
        }
        assert(keys[keys.len() - 1] == keys.last());
    }
    assert(marked(all_marked(entries, before), keys.last()) =~= all_marked(entries, keys));
}

/// Starts the first round for a list of mint accounts, which asks for the list as it was given.
pub fn decode_metadata_all(mint_accounts: Vec<String>) -> (round: FetchRound)
    ensures
        round@.cache == initial_entries(texts(mint_accounts@)),
        round@.mints == texts(mint_accounts@),
        round@.covers(),
        round@.mints.len() == mint_accounts@.len(),
        forall|i: int|
            0 <= i < mint_accounts@.len() ==> #[trigger] round@.mints[i] == mint_accounts@[i]@,
{
    let cache = DecodeCache::from_mints(&mint_accounts);
    proof {
        let mints = texts(mint_accounts@);
        lemma_initial_entries(mints);
        lemma_remaining(cache@);
        assert forall|key: Seq<char>| #[trigger]
            remaining_keys(cache@).contains(key) implies mints.contains(key) by {
            assert(has_key(cache@, key));
        }
        assert forall|i: int| 0 <= i < mints.len() implies has_key(
            cache@,
            #[trigger] mints[i],
        ) by {
            assert(mints.contains(mints[i]));
        }
    }
    FetchRound { cache, mints: mint_accounts }
}

impl FetchRound {
    #[verifier::type_invariant]
    spec fn inv(self) -> bool {
        self@.covers()
    }

    /// The mint accounts that the round asks for.
    pub fn mints(&self) -> (mints: &Vec<String>)
        ensures
            texts(mints@) == self@.mints,
            mints@.len() == self@.mints.len(),
            forall|i: int| 0 <= i < mints@.len() ==> (#[trigger] mints@[i])@ == self@.mints[i],
    {
        assert forall|i: int| 0 <= i < self.mints@.len() implies (#[trigger] self.mints@[i])@
            == self@.mints[i] by {
            assert(texts(self.mints@)[i] == self.mints@[i]@);
        }
        &self.mints
    }

    /// Takes the results of the round's decodes: the mint accounts of the records are marked as
    /// decoded, and the records are to be written.
    pub fn record(self, results: DecodeResults) -> (round: WriteRound)
        requires
            answers(self@.mints, outcomes(results@)),
            all_known(self@.cache, outcomes(results@)),
        ensures
            round@.cache == all_marked(
                self@.cache,
                mint_texts(records(outcomes(results@))),
            ),
            round@.pending == records(outcomes(results@)),
            round@.failed == errors(outcomes(results@)),
            round@.requested == self@.mints.len(),
    {
        proof {
            use_type_invariant(&self);
        }
        let ghost before = self.cache@;
        let ghost all = outcomes(results@);
        let requested = self.mints.len();
        let mut cache = self.cache;
        let mut pending: Vec<Metadata> = Vec::new();
        let mut failed: DecodeResults = Vec::new();
        assert(all_marked(before, mint_texts(records(all.take(0)))) =~= before);
        for result in iter: results.into_iter()
            invariant
                iter.seq() == results@,
                all == outcomes(results@),
                all_known(before, all),
                forall|i: int|
                    0 <= i < all.len() ==> (#[trigger] all[i] matches Err(error) ==> has_key(
                        before,
                        error.account(),
                    )),
                cache@ == all_marked(
                    before,
                    mint_texts(records(all.take(iter.index()))),
                ),
                record_views(pending@) =~= records(all.take(iter.index())),
                failures(failed@) =~= errors(all.take(iter.index())),
                known_failures(before, failed@),
        {
            let ghost i = iter.index();
            assert(all[i] == decode_view(result));
            assert(all.take(i + 1).drop_last() =~= all.take(i));
            assert(all.take(i + 1).last() == all[i]);
            match result {
                Ok(metadata) => {
                    let mint = address_to_string(&metadata.mint);
                    proof {
                        lemma_same_keys(before, cache@);
                        let keys = mint_texts(records(all.take(i + 1)));
                        assert(keys.drop_last() =~= mint_texts(records(all.take(i))));
                        assert(keys.last() == mint@);
                        lemma_one_more_marked(before, keys);
                    }
                    cache.mark_successful(mint.as_str());
                    let ghost pending_before = pending@;
                    pending.push(metadata);
                    assert(record_views(pending@) =~= record_views(pending_before).push(metadata@));
                },
                Err(error) => {
                    let ghost failed_before = failed@;
                    failed.push(Err(error));
                    assert(failures(failed@) =~= failures(failed_before).push(error@));
                },
            }
        }
        assert(all.take(all.len() as int) =~= all);
        proof {
            lemma_same_keys(before, cache@);
        }
        WriteRound { cache, pending, failed, requested }
    }

    /// Takes the results of the round's decodes as [`FetchRound::record`] does, where they are
    /// one result for each mint account of the round, every error is about its own account and
    /// the cache knows the mint account of every record.
    pub fn try_record(self, results: DecodeResults) -> (round: Option<
        WriteRound,
    >)
        ensures
            round is Some <==> answers(self@.mints, outcomes(results@)) && all_known(
                self@.cache,
                outcomes(results@),
            ),
            round matches Some(round) ==> {
                &&& round@.cache == all_marked(
                    self@.cache,
                    mint_texts(records(outcomes(results@))),
                )
                &&& round@.pending == records(outcomes(results@))
                &&& round@.failed == errors(outcomes(results@))
                &&& round@.requested == self@.mints.len()
            },
    {
        let ghost all = outcomes(results@);
        if results.len() != self.mints.len() {
            return None;
        }
        for i in 0..results.len()
            invariant
                all == outcomes(results@),
                results@.len() == self.mints@.len(),
                forall|j: int|
                    0 <= j < i ==> (#[trigger] all[j] matches Err(error) ==> error.account()
                        == self@.mints[j]),
                forall|j: int|
                    0 <= j < i ==> (#[trigger] all[j] matches Ok(metadata) ==> has_key(
                        self@.cache,
                        address_text(metadata.mint),
                    )),
        {
            assert(all[i as int] == decode_view(results@[i as int]));
            match &results[i] {
                Ok(metadata) => {
                    let mint = address_to_string(&metadata.mint);
                    if !self.cache.contains(mint.as_str()) {
                        return None;
                    }
                },
                Err(error) => {
                    if *error.account() != self.mints[i] {
                        return None;
                    }
                },
            }
        }
        Some(self.record(results))
    }
}

/// How many of `pending` records are written at the same time.
pub open spec fn batch_size(pending: nat) -> nat {
    if pending < OPEN_FILES_LIMIT {
        pending
    } else {
        OPEN_FILES_LIMIT as nat
    }
}

/// The batches in which `pending` is written.
pub open spec fn batches(pending: Seq<MetadataView>) -> Seq<Seq<MetadataView>>
    decreases pending.len(),
{
    if pending.len() == 0 {
        Seq::empty()
    } else {
        let size = batch_size(pending.len()) as int;
        seq![pending.take(size)] + batches(pending.skip(size))
    }
}

impl WriteRound {
    #[verifier::type_invariant]
    spec fn inv(self) -> bool {
        known_failures(self.cache@, self.failed@)
    }

    /// Whether all records of the round were handed out.
    pub fn is_written(&self) -> (written: bool)
        ensures
            written == (self@.pending.len() == 0),
    {
        self.pending.len() == 0
    }

    /// Hands out the next records to be written, as many as files may be open.
    pub fn next_batch(self) -> (next: (Vec<Metadata>, WriteRound))
        ensures
            record_views(next.0@) == self@.pending.take(
                batch_size(self@.pending.len()) as int,
            ),
            next.1@.pending == self@.pending.skip(batch_size(self@.pending.len()) as int),
            next.1@.cache == self@.cache,
            next.1@.failed == self@.failed,
            next.1@.requested == self@.requested,
            next.0@.len() == if self@.pending.len() < OPEN_FILES_LIMIT {
                self@.pending.len() as int
            } else {
                OPEN_FILES_LIMIT as int
            },
            forall|i: int| 0 <= i < next.0@.len() ==> (#[trigger] next.0@[i])@ == self@.pending[i],
            next.0@.map_values(|metadata: Metadata| metadata@) + next.1@.pending == self@.pending,
    {
        proof {
            use_type_invariant(&self);
        }
        let size: usize = if self.pending.len() < OPEN_FILES_LIMIT {
            self.pending.len()
        } else {
            OPEN_FILES_LIMIT
        };
        let mut batch = self.pending;
        let pending = batch.split_off(size);
        assert(record_views(batch@) =~= self@.pending.take(size as int));
        assert(record_views(pending@) =~= self@.pending.skip(size as int));
        assert forall|i: int| 0 <= i < batch@.len() implies (#[trigger] batch@[i])@
            == self@.pending[i] by {
            assert(record_views(batch@)[i] == batch@[i]@);
        }
        assert(record_views(batch@) + record_views(pending@) =~= self@.pending);
        let round = WriteRound {
            cache: self.cache,
            pending,
            failed: self.failed,
            requested: self.requested,
        };
        (batch, round)
    }

    /// Ends the round, once all its records were handed out.
    pub fn finish(self) -> (end: RoundEnd)
        requires
            self@.pending.len() == 0,
        ensures
            match end {
                RoundEnd::Complete => self@.failed.len() == 0,
                RoundEnd::Failed(round) => {
                    &&& self@.failed.len() > 0
                    &&& round@ == (AskView {
                        cache: self@.cache,
                        failed: self@.failed,
                        requested: self@.requested,
                    })
                },
            },
    {
        proof {
            use_type_invariant(&self);
        }
        if self.failed.len() > 0 {
            RoundEnd::Failed(
                AskRound { cache: self.cache, failed: self.failed, requested: self.requested },
            )
        } else {
            RoundEnd::Complete
        }
    }
}

/// The question that the user is asked when `failed` out of `requested` decodes failed.
pub open spec fn question(failed: nat, requested: nat) -> Seq<char> {
    decimal(failed) + "/"@ + decimal(requested)
        + " decodes failed. Do you want to retry these ones?"@
}

impl AskRound {
    #[verifier::type_invariant]
    spec fn inv(self) -> bool {
        known_failures(self.cache@, self.failed@)
    }

    /// The question that the user is asked.
    pub fn prompt(&self) -> (text: String)
        ensures
            text@ == question(self@.failed.len(), self@.requested),
            text@ == decimal(self@.failed.len()) + "/"@ + decimal(self@.requested)
                + " decodes failed. Do you want to retry these ones?"@,
    {
        let mut text = decimal_text(self.failed.len());
        text.append("/");
        text.append(decimal_text(self.requested).as_str());
        text.append(" decodes failed. Do you want to retry these ones?");
        text
    }

    /// Starts another round, which asks for every mint account that is not decoded.
    pub fn retry(self) -> (round: FetchRound)
        ensures
            round@.cache == self@.cache,
            round@.mints == remaining_keys(self@.cache),
            round@.mints == self@.cache.filter(
                |entry: (Seq<char>, ItemView)| !entry.1.successful,
            ).map_values(|entry: (Seq<char>, ItemView)| entry.0),
            round@.covers(),
    {
        let mints = self.cache.remaining();
        proof {
            lemma_remaining(self@.cache);
            assert forall|i: int| 0 <= i < texts(mints@).len() implies has_key(
                self@.cache,
                #[trigger] texts(mints@)[i],
            ) by {
                assert(remaining_keys(self@.cache).contains(texts(mints@)[i]));
            }
        }
        FetchRound { cache: self.cache, mints }
    }

    /// Gives up: the entries to be written to the cache file, which are those that are not
    /// decoded, with the errors of the last round.
    pub fn stop(self) -> (entries: Vec<(String, CacheItem)>)
        ensures
            entry_views(entries@) == failed_entries(with_errors(self@.cache, self@.failed)),
            distinct_keys(entry_views(entries@)),
            entries@.map_values(|entry: (String, CacheItem)| (entry.0@, entry.1@)) == with_errors(
                self@.cache,
                self@.failed,
            ).filter(|entry: (Seq<char>, ItemView)| !entry.1.successful),
            forall|i: int| 0 <= i < entries@.len() ==> !(#[trigger] entries@[i]).1.successful,
    {
        proof {
            use_type_invariant(&self);
        }
        let mut cache = self.cache;
        cache.update_errors(self.failed);
        cache.write_errors()
    }
}

/// A mint account is asked for again exactly if it was not decoded before and no record of the
/// round is its own; the cache keeps every mint account it had.
pub proof fn lemma_retry_asks_for_the_rest(entries: Entries, keys: Seq<Seq<char>>)
    requires
        distinct_keys(entries),
    ensures
        forall|key: Seq<char>|
            #[trigger] remaining_keys(all_marked(entries, keys)).contains(key)
                <==> remaining_keys(entries).contains(key) && !keys.contains(key),
        forall|key: Seq<char>| has_key(all_marked(entries, keys), key) <==> has_key(entries, key),
        distinct_keys(all_marked(entries, keys)),
{
    let after = all_marked(entries, keys);
    lemma_same_keys(entries, after);
    lemma_remaining(entries);
    lemma_remaining(after);
    assert forall|key: Seq<char>| #[trigger]
        remaining_keys(after).contains(key) <==> remaining_keys(entries).contains(key)
            && !keys.contains(key) by {
        if remaining_keys(after).contains(key) {
            let i = choose|i: int|
                0 <= i < after.len() && (#[trigger] after[i]).0 == key && !after[i].1.successful;
            assert(entries[i].0 == key);
        }
        if remaining_keys(entries).contains(key) && !keys.contains(key) {
            let i = choose|i: int|
                0 <= i < entries.len() && (#[trigger] entries[i]).0 == key
                    && !entries[i].1.successful;
            assert(after[i].0 == key);
        }
    }
}

/// Decodes of the mint accounts of a round, whatever the network replies, are results that the
/// round can take.
pub proof fn lemma_decodes_answer(
    mints: Seq<Seq<char>>,
    replies: Seq<Result<Seq<u8>, Seq<char>>>,
    outcomes: Seq<Outcome>,
)
    requires
        outcomes.len() == mints.len(),
        replies.len() == mints.len(),
        forall|i: int|
            0 <= i < mints.len() ==> #[trigger] outcomes[i] == decode_outcome(mints[i], replies[i]),
    ensures
        answers(mints, outcomes),
{
}

/// Whether each record is that of the mint account that was asked for.
pub open spec fn own_records(mints: Seq<Seq<char>>, outcomes: Seq<Outcome>) -> bool {
    forall|i: int|
        0 <= i < outcomes.len() ==> (#[trigger] outcomes[i] matches Ok(metadata) ==> address_text(
            metadata.mint,
        ) == mints[i])
}

/// A round can always be recorded when each record is that of the mint account that was asked for.
pub proof fn lemma_own_records_are_known(round: FetchView, outcomes: Seq<Outcome>)
    requires
        round.covers(),
        answers(round.mints, outcomes),
        own_records(round.mints, outcomes),
    ensures
        all_known(round.cache, outcomes),
{
    assert forall|i: int| 0 <= i < outcomes.len() implies (#[trigger] outcomes[i] matches Ok(
        metadata,
    ) ==> has_key(round.cache, address_text(metadata.mint))) by {
        assert(has_key(round.cache, round.mints[i]));
    }
}

pub(crate) proof fn lemma_record_of(outcomes: Seq<Outcome>, i: int)
    requires
        0 <= i < outcomes.len(),
        outcomes[i] is Ok,
    ensures
        records(outcomes).contains(outcomes[i]->Ok_0),
    decreases outcomes.len(),
{
    let rest = outcomes.drop_last();
    if i < rest.len() {
        assert(rest[i] == outcomes[i]);
        lemma_record_of(rest, i);
        let j = choose|j: int|
            0 <= j < records(rest).len() && records(rest)[j] == outcomes[i]->Ok_0;
        assert(records(outcomes)[j] == outcomes[i]->Ok_0);
    } else {
        assert(records(outcomes)[records(rest).len() as int] == outcomes[i]->Ok_0);
    }
}

/// After a round in which no decode failed and each record is that of the mint account that was
/// asked for, every mint account of the batch is decoded.
pub proof fn lemma_complete_round_leaves_none(round: FetchView, outcomes: Seq<Outcome>)
    requires
        distinct_keys(round.cache),
        round.covers(),
        answers(round.mints, outcomes),
        own_records(round.mints, outcomes),
        errors(outcomes).len() == 0,
    ensures
        remaining_keys(all_marked(round.cache, mint_texts(records(outcomes)))).len() == 0,
{
    let keys = mint_texts(records(outcomes));
    let left = remaining_keys(all_marked(round.cache, keys));
    lemma_retry_asks_for_the_rest(round.cache, keys);
    if left.len() > 0 {
        let key = left[0];
        assert(left.contains(key));
        assert(round.mints.contains(key));
        let i = choose|i: int| 0 <= i < round.mints.len() && round.mints[i] == key;
        lemma_no_error_at(outcomes, i);
        lemma_record_of(outcomes, i);
        let j = choose|j: int|
            0 <= j < records(outcomes).len() && records(outcomes)[j] == outcomes[i]->Ok_0;
        assert(keys[j] == key);
    }
}

proof fn lemma_no_error_at(outcomes: Seq<Outcome>, i: int)
    requires
        errors(outcomes).len() == 0,
        0 <= i < outcomes.len(),
    ensures
        outcomes[i] is Ok,
    decreases outcomes.len(),
{
    if i < outcomes.len() - 1 {
        lemma_no_error_at(outcomes.drop_last(), i);
    }
}

/// Every result of a round is either a record that is written or an error that is counted.
pub proof fn lemma_partition(outcomes: Seq<Outcome>)
    ensures
        records(outcomes).len() + errors(outcomes).len() == outcomes.len(),
    decreases outcomes.len(),
{
    if outcomes.len() > 0 {
        lemma_partition(outcomes.drop_last());
    }
}

/// The batches of a round together are its records, in their order; none is empty, none needs more
/// files than may be open, and there are as few of them as that allows.
pub proof fn lemma_batches(pending: Seq<MetadataView>)
    ensures
        batches(pending).flatten() == pending,
        batches(pending).len() == (pending.len() + OPEN_FILES_LIMIT - 1) / (
        OPEN_FILES_LIMIT as int),
        forall|i: int|
            0 <= i < batches(pending).len() ==> 0 < (#[trigger] batches(pending)[i]).len()
                <= OPEN_FILES_LIMIT,
    decreases pending.len(),
{
    if pending.len() > 0 {
        let size = batch_size(pending.len()) as int;
        let rest = pending.skip(size);
        lemma_batches(rest);
        assert(batches(pending).drop_first() =~= batches(rest));
        assert(batches(pending).first() == pending.take(size));
        assert(batches(pending).flatten() =~= pending.take(size) + rest);
        assert(pending.take(size) + rest =~= pending);
        assert forall|i: int| 0 <= i < batches(pending).len() implies 0 < (#[trigger] batches(
            pending,
        )[i]).len() <= OPEN_FILES_LIMIT by {
            if i > 0 {
                assert(batches(pending)[i] == batches(rest)[i - 1]);
            }
        }
    } else {
        assert(batches(pending).flatten() =~= pending);
    }
}

/// What is reported when the user gives up: the mint account of every error of the last round,
/// with the message of its last one, and beside these the entries that were not decoded before
/// and that no error is about. Nothing in it counts as decoded.
pub proof fn lemma_report(entries: Entries, failed: Seq<ErrorView>)
    requires
        distinct_keys(entries),
        forall|i: int| 0 <= i < failed.len() ==> has_key(entries, (#[trigger] failed[i]).account()),
    ensures
        forall|i: int|
            0 <= i < failed.len() ==> failed_entries(with_errors(entries, failed)).contains(
                (
                    (#[trigger] failed[i]).account(),
                    ItemView {
                        successful: false,
                        error: Some(
                            last_error(failed, failed[i].account())->Some_0.message(),
                        ),
                    },
                ),
            ),
        forall|entry: (Seq<char>, ItemView)|
            last_error(failed, entry.0) is None ==> (#[trigger] failed_entries(
                with_errors(entries, failed),
            ).contains(entry) <==> entries.contains(entry) && !entry.1.successful),
        forall|entry: (Seq<char>, ItemView)| #[trigger]
            failed_entries(with_errors(entries, failed)).contains(entry)
                ==> !entry.1.successful,
{
    let after = with_errors(entries, failed);
    lemma_same_keys(entries, after);
    lemma_failed_entries(after);
    assert forall|i: int| 0 <= i < failed.len() implies failed_entries(after).contains(
        (
            (#[trigger] failed[i]).account(),
            ItemView {
                successful: false,
                error: Some(last_error(failed, failed[i].account())->Some_0.message()),
            },
        ),
    ) by {
        let key = failed[i].account();
        lemma_last_error(failed, i);
        let k = choose|k: int| 0 <= k < entries.len() && (#[trigger] entries[k]).0 == key;
        assert(after.contains(after[k]));
    }
    assert forall|entry: (Seq<char>, ItemView)|
        last_error(failed, entry.0) is None implies (#[trigger] failed_entries(after).contains(
        entry,
    ) <==> entries.contains(entry) && !entry.1.successful) by {
        if entries.contains(entry) {
            let k = choose|k: int| 0 <= k < entries.len() && entries[k] == entry;
            assert(after[k] == entry);
        }
        if after.contains(entry) {
            let k = choose|k: int| 0 <= k < after.len() && after[k] == entry;
            assert(entries[k] == entry);
        }
    }
}

proof fn lemma_last_error(errors: Seq<ErrorView>, i: int)
    requires
        0 <= i < errors.len(),
    ensures
        last_error(errors, errors[i].account()) is Some,
        last_error(errors, errors[i].account())->Some_0.account() == errors[i].account(),
    decreases errors.len(),
{
    if errors.last().account() != errors[i].account() {
        assert(errors.drop_last()[i] == errors[i]);
        lemma_last_error(errors.drop_last(), i);
    }
}

/// The outcome of a decode is its record or its error, and those of a list are in its order.
pub proof fn lemma_outcome_values(results: Seq<Result<Metadata, DecodeError>>)
    ensures
        outcomes(results).len() == results.len(),
        forall|i: int|
            0 <= i < results.len() ==> match (results[i], #[trigger] outcomes(results)[i]) {
                (Ok(metadata), Ok(record)) => record == metadata@,
                (Err(error), Err(value)) => value == error@,
                _ => false,
            },
{
}

/// The records of two lists of outcomes, one behind the other, are those of the first and behind
/// them those of the second, and so are the errors; a single outcome is a record or an error, and
/// never both.
pub proof fn lemma_records_and_errors(
    first: Seq<Outcome>,
    second: Seq<Outcome>,
    metadata: MetadataView,
    error: ErrorView,
)
    ensures
        records(first + second) == records(first) + records(second),
        errors(first + second) == errors(first) + errors(second),
        records(seq![Ok::<MetadataView, ErrorView>(metadata)]) == seq![metadata],
        errors(seq![Ok::<MetadataView, ErrorView>(metadata)]).len() == 0,
        records(seq![Err::<MetadataView, ErrorView>(error)]).len() == 0,
        errors(seq![Err::<MetadataView, ErrorView>(error)]) == seq![error],
        records(Seq::<Outcome>::empty()).len() == 0,
        errors(Seq::<Outcome>::empty()).len() == 0,
    decreases second.len(),
{
    let record = seq![Ok::<MetadataView, ErrorView>(metadata)];
    let failure = seq![Err::<MetadataView, ErrorView>(error)];
    assert(record.drop_last() =~= Seq::<Outcome>::empty());
    assert(failure.drop_last() =~= Seq::<Outcome>::empty());
    assert(records(record.drop_last()) =~= Seq::<MetadataView>::empty());
    assert(errors(failure.drop_last()) =~= Seq::<ErrorView>::empty());
    assert(records(record) =~= seq![metadata]);
    assert(errors(failure) =~= seq![error]);
    if second.len() > 0 {
        lemma_records_and_errors(first, second.drop_last(), metadata, error);
        assert((first + second).drop_last() =~= first + second.drop_last());
        assert((first + second).last() == second.last());
    } else {
        assert(first + second =~= first);
    }
    assert(records(first + second) =~= records(first) + records(second));
    assert(errors(first + second) =~= errors(first) + errors(second));
}

/// The mint accounts of records are in the records' order, each in the text of its address, and the
/// values of a list of records are those of its records.
pub proof fn lemma_record_lists(values: Seq<MetadataView>, list: Seq<Metadata>)
    ensures
        mint_texts(values).len() == values.len(),
        forall|i: int|
            0 <= i < values.len() ==> #[trigger] mint_texts(values)[i] == address_text(
                values[i].mint,
            ),
        record_views(list).len() == list.len(),
        forall|i: int| 0 <= i < list.len() ==> #[trigger] record_views(list)[i] == list[i]@,
{
}

/// To mark mint accounts as decoded changes nothing but that: every entry stays in its place and
/// keeps its error, and it is decoded if it was before or is one of those mint accounts.
pub proof fn lemma_marks(entries: Entries, keys: Seq<Seq<char>>)
    ensures
        all_marked(entries, keys).len() == entries.len(),
        forall|i: int|
            0 <= i < entries.len() ==> {
                &&& (#[trigger] all_marked(entries, keys)[i]).0 == entries[i].0
                &&& all_marked(entries, keys)[i].1.error == entries[i].1.error
                &&& all_marked(entries, keys)[i].1.successful == (entries[i].1.successful
                    || keys.contains(entries[i].0))
            },
{
}

/// A round takes one outcome for each mint account that it asked for, every error about its own
/// mint account and every record about one that the cache has an entry for.
pub proof fn lemma_what_a_round_takes(round: FetchView, outcomes: Seq<Outcome>)
    ensures
        answers(round.mints, outcomes) <==> {
            &&& outcomes.len() == round.mints.len()
            &&& forall|i: int|
                0 <= i < outcomes.len() && outcomes[i] is Err ==> (
                #[trigger] outcomes[i])->Err_0.account() == round.mints[i]
        },
        all_known(round.cache, outcomes) <==> forall|i: int|
            0 <= i < outcomes.len() && outcomes[i] is Ok ==> exists|k: int|
                0 <= k < round.cache.len() && (#[trigger] round.cache[k]).0 == address_text(
                    (#[trigger] outcomes[i])->Ok_0.mint,
                ),
{
    if all_known(round.cache, outcomes) {
        assert forall|i: int| 0 <= i < outcomes.len() && outcomes[i] is Ok implies exists|k: int|
            0 <= k < round.cache.len() && (#[trigger] round.cache[k]).0 == address_text(
                (#[trigger] outcomes[i])->Ok_0.mint,
            ) by {
            assert(has_key(round.cache, address_text(outcomes[i]->Ok_0.mint)));
        }
    }
}

/// The question names the number of failed decodes and that of the requested ones, in this order.
pub proof fn lemma_question(failed: nat, requested: nat)
    ensures
        question(failed, requested) == decimal(failed) + "/"@ + decimal(requested)
            + " decodes failed. Do you want to retry these ones?"@,
        question(failed, requested).take(decimal(failed).len() as int) == decimal(failed),
{
    assert(question(failed, requested).take(decimal(failed).len() as int) =~= decimal(failed));
}

/// As many records are written at once as are left, but no more than files may be open.
pub proof fn lemma_batch_size(pending: nat)
    ensures
        batch_size(pending) <= pending,
        batch_size(pending) <= OPEN_FILES_LIMIT,
        batch_size(pending) == pending || batch_size(pending) == OPEN_FILES_LIMIT,
{
}

} // verus!
