//! What holds of the dispatcher whatever its callers do.
//!
//! Each law is a theorem about the functions of [`crate::model`], to which
//! the contracts of the executable functions tie the code. A law that speaks
//! of a history speaks of a sequence of calls: the dispatcher `before` call
//! number `i` is the one that answers it.

use crate::lemmas::{
    distinct, has_text, lemma_before_grown, lemma_before_next, lemma_before_spent,
    lemma_before_split, lemma_before_wf, lemma_closed_stays, lemma_get_job_finds_nothing,
    lemma_get_job_pops, lemma_handed_out_is_spent, lemma_open_before,
    lemma_spent_is_not_handed_out, lemma_update_new, lemma_update_seen, lemma_update_wf,
    only_get_job, spent, unseen,
};
use crate::model::{Call, JobView, ShedulerView};
use crate::outside::url_text;
use crate::shed::EngineState;
use url::Url;
use vstd::prelude::*;

verus! {

/// Engine `engine_id` makes one of `calls`.
pub open spec fn asked(calls: Seq<Call>, engine_id: i32) -> bool {
    exists|i: int| 0 <= i < calls.len() && #[trigger] calls[i] == Call::GetJob(engine_id)
}

/// Engine `engine_id` makes none of the calls from number `from` up to, and
/// without, number `to`.
pub open spec fn silent(calls: Seq<Call>, engine_id: i32, from: int, to: int) -> bool {
    forall|k: int| from <= k < to ==> #[trigger] calls[k] != Call::GetJob(engine_id)
}

/// A fresh dispatcher answers `Closed` to the first engine that asks,
/// whichever it is, and is closed from then on.
pub proof fn law_fresh_closes_at_once(engine_id: i32)
    ensures
        ShedulerView::fresh().job() == JobView::Closed,
        ShedulerView::fresh().get_job(engine_id).engines_stoped,
{
}

/// No call makes the dispatcher forget a text: a report adds the texts of
/// the reported URLs to those it has seen, and no other call changes them.
pub proof fn law_seen_only_grows(s: ShedulerView, calls: Seq<Call>, i: int, text: Seq<char>)
    requires
        0 <= i < calls.len(),
    ensures
        ({
            let old = s.before(calls, i).state.seen_list;
            let new = s.before(calls, i + 1).state.seen_list;
            match calls[i] {
                Call::MarkUrl(url) => new.contains(text) <==> old.contains(text) || url_text(url)
                    == text,
                Call::MarkUrls(urls) => new.contains(text) <==> old.contains(text) || has_text(
                    urls,
                    text,
                ),
                _ => new == old,
            }
        }),
{
    lemma_before_next(s, calls, i);
    if let Call::MarkUrls(urls) = calls[i] {
        lemma_update_seen(s.before(calls, i).state, urls, text);
    }
}

/// URLs that are reported in one batch are handed out last first, each of
/// them once.
///
/// Let an open dispatcher be given a batch of URLs that are new to it and
/// differ from each other, and let engines then ask for work. Then call
/// number `k` of `get_job` is answered with the `k`-th URL of the batch
/// counted from its end, whoever asks, and no other call `m` is answered
/// with a URL of that text. Where no URL waited before the batch, none is
/// handed out once the batch is used up.
pub proof fn law_batch_is_handed_out_last_first(
    s: ShedulerView,
    urls: Seq<Url>,
    calls: Seq<Call>,
    k: int,
    m: int,
)
    requires
        s.wf(),
        !s.engines_stoped,
        distinct(urls),
        unseen(s.state, urls),
        only_get_job(calls),
        0 <= k < calls.len(),
        0 <= m < calls.len(),
    ensures
        ({
            let answer = s.mark_urls(urls).before(calls, k).job();
            let other = s.mark_urls(urls).before(calls, m).job();
            &&& k < urls.len() ==> answer == JobView::Search(urls[urls.len() - 1 - k])
            &&& k < urls.len() && m != k && other is Search ==> url_text(other->Search_0)
                != url_text(urls[urls.len() - 1 - k])
            &&& k >= urls.len() && s.state.wait_list.len() == 0 ==> !(answer is Search)
        }),
{
    let fed = s.mark_urls(urls);
    lemma_update_new(s.state, urls);
    if k < urls.len() {
        lemma_get_job_pops(fed, calls, k);
        lemma_update_wf(s.state, urls);
        if k < m {
            law_no_url_is_handed_out_twice(fed, calls, k, m);
        } else if m < k {
            law_no_url_is_handed_out_twice(fed, calls, m, k);
        }
    } else if s.state.wait_list.len() == 0 {
        let n = urls.len() as int;
        lemma_get_job_pops(fed, calls, n);
        lemma_before_split(fed, calls, n, k);
        lemma_get_job_finds_nothing(fed.before(calls, n), calls.skip(n), k - n);
    }
}

/// The URLs of one batch keep their order, whatever else is called: of two
/// URLs of a batch that was new to the dispatcher, the one that stood later
/// in the batch is handed out earlier.
pub proof fn law_batch_order_is_kept(
    s: ShedulerView,
    calls: Seq<Call>,
    r: int,
    i: int,
    j: int,
    a: int,
    b: int,
)
    requires
        s.wf(),
        0 <= r < i < calls.len(),
        r < j < calls.len(),
        calls[r] is MarkUrls,
        distinct(calls[r]->MarkUrls_0),
        unseen(s.before(calls, r).state, calls[r]->MarkUrls_0),
        0 <= a < b < calls[r]->MarkUrls_0.len(),
        calls[i] is GetJob,
        calls[j] is GetJob,
        s.before(calls, i).job() == JobView::Search(calls[r]->MarkUrls_0[a]),
        s.before(calls, j).job() == JobView::Search(calls[r]->MarkUrls_0[b]),
    ensures
        j < i,
{
    let urls = calls[r]->MarkUrls_0;
    let before = s.before(calls, r).state;
    let then = s.before(calls, r + 1).state;
    let now = s.before(calls, i);
    let below = before.wait_list.len() as int;
    let text = url_text(urls[b]);

    lemma_before_next(s, calls, r);
    lemma_update_new(before, urls);
    lemma_before_wf(s, calls, r + 1);
    assert(then.wait_list[below + a] == urls[a]);
    assert(then.wait_list[below + b] == urls[b]);

    let keep = lemma_before_grown(s, calls, r + 1, i);
    let top = now.state.wait_list.len() - 1;
    assert(now.state.wait_list[top] == urls[a]);
    assert(then.seen_list.contains(url_text(then.wait_list[below + a])));
    assert(top < keep);
    assert(now.state.wait_list.take(keep)[top] == then.wait_list.take(keep)[top]);
    assert(top == below + a);

    assert(then.seen_list.contains(url_text(then.wait_list[below + b])));
    if now.state.waits(text) {
        let p = choose|p: int|
            0 <= p < now.state.wait_list.len() && url_text(#[trigger] now.state.wait_list[p])
                == text;
        assert(now.state.wait_list.take(keep)[p] == then.wait_list.take(keep)[p]);
    }
    assert(spent(now, text));
    if i <= j {
        lemma_before_split(s, calls, i, j);
        lemma_before_spent(now, calls.skip(i), j - i, text);
        lemma_spent_is_not_handed_out(s.before(calls, j), text);
    }
}

/// No URL is handed out twice: of the answers to any calls on a well-formed
/// dispatcher, such as a fresh one, no two are `Search` with URLs of the
/// same text, however often that text is reported.
pub proof fn law_no_url_is_handed_out_twice(s: ShedulerView, calls: Seq<Call>, i: int, j: int)
    requires
        s.wf(),
        0 <= i < j < calls.len(),
        calls[i] is GetJob,
        calls[j] is GetJob,
    ensures
        ({
            let first = s.before(calls, i).job();
            let second = s.before(calls, j).job();
            first is Search && second is Search ==> url_text(first->Search_0) != url_text(
                second->Search_0,
            )
        }),
{
    let at_i = s.before(calls, i);
    if at_i.job() is Search {
        let text = url_text(at_i.job()->Search_0);
        lemma_before_wf(s, calls, i);
        lemma_handed_out_is_spent(at_i, calls[i]->GetJob_0);
        lemma_before_next(s, calls, i);
        lemma_before_split(s, calls, i + 1, j);
        lemma_before_spent(s.before(calls, i + 1), calls.skip(i + 1), j - i - 1, text);
        lemma_spent_is_not_handed_out(s.before(calls, j), text);
    }
}

/// Once the dispatcher is closed, by `close` or by answering `Closed`, it
/// answers `Closed` to every engine, whatever is reported in between.
pub proof fn law_closed_is_final(s: ShedulerView, calls: Seq<Call>, i: int, j: int)
    requires
        0 <= i < j < calls.len(),
        calls[i] is Close || (calls[i] is GetJob && s.before(calls, i).job() is Closed),
    ensures
        s.before(calls, j).engines_stoped,
        s.before(calls, j).job() == JobView::Closed,
{
    lemma_before_next(s, calls, i);
    lemma_before_split(s, calls, i + 1, j);
    lemma_closed_stays(s.before(calls, i + 1), calls.skip(i + 1), j - i - 1);
}

/// A dispatcher that is closed answers `Closed` from then on.
pub proof fn law_closed_answers_closed(s: ShedulerView, calls: Seq<Call>, j: int)
    requires
        s.engines_stoped,
        0 <= j <= calls.len(),
    ensures
        s.before(calls, j).job() == JobView::Closed,
{
    lemma_closed_stays(s, calls, j);
}

/// The dispatcher answers `Closed` exactly when it is closed already, or
/// when every engine it knows is idle and no URL waits. It closes by
/// `get_job` in the second case and in no other.
pub proof fn law_closes_exactly_when_quiescent(s: ShedulerView, engine_id: i32)
    ensures
        s.job() is Closed <==> s.engines_stoped || (s.all_idle() && s.state.wait_list.len() == 0),
        s.get_job(engine_id).engines_stoped <==> s.job() is Closed,
{
}

/// While a dispatcher that started fresh is open, the engines it knows are
/// exactly those that have asked for work, and it knows each of them as
/// working or as idle.
pub proof fn law_known_engines_are_those_that_asked(calls: Seq<Call>, engine_id: i32)
    requires
        !ShedulerView::fresh().after_all(calls).engines_stoped,
    ensures
        ShedulerView::fresh().after_all(calls).engines.contains_key(engine_id) <==> asked(
            calls,
            engine_id,
        ),
        ShedulerView::fresh().after_all(calls).engines.contains_key(engine_id)
            ==> ShedulerView::fresh().after_all(calls).engines[engine_id] != EngineState::Created,
    decreases calls.len(),
{
    if calls.len() > 0 {
        let front = calls.drop_last();
        law_known_engines_are_those_that_asked(front, engine_id);
        if asked(front, engine_id) {
            let i = choose|i: int|
                0 <= i < front.len() && #[trigger] front[i] == Call::GetJob(engine_id);
            assert(calls[i] == Call::GetJob(engine_id));
        }
        if asked(calls, engine_id) {
            let i = choose|i: int|
                0 <= i < calls.len() && #[trigger] calls[i] == Call::GetJob(engine_id);
            if i < front.len() {
                assert(front[i] == Call::GetJob(engine_id));
            }
        }
        if calls.last() == Call::GetJob(engine_id) {
            assert(calls[calls.len() - 1] == Call::GetJob(engine_id));
        }
    }
}

/// While the dispatcher is open, it knows an engine as what the latest
/// answer to that engine made it: as working after `Search`, as idle after
/// `Idle`.
pub proof fn law_engine_is_what_it_was_told(s: ShedulerView, calls: Seq<Call>, i: int, j: int)
    requires
        0 <= i < j <= calls.len(),
        calls[i] is GetJob,
        silent(calls, calls[i]->GetJob_0, i + 1, j),
        !s.before(calls, j).engines_stoped,
    ensures
        ({
            let engine_id = calls[i]->GetJob_0;
            let answer = s.before(calls, i).job();
            let now = s.before(calls, j);
            &&& now.engines.contains_key(engine_id)
            &&& answer is Search ==> now.engines[engine_id] == EngineState::Work
            &&& answer is Idle ==> now.engines[engine_id] == EngineState::Idle
            &&& !(answer is Closed)
        }),
    decreases j - i,
{
    let engine_id = calls[i]->GetJob_0;
    lemma_before_next(s, calls, j - 1);
    if i + 1 < j {
        lemma_open_before(s, calls, j - 1, j);
        law_engine_is_what_it_was_told(s, calls, i, j - 1);
        assert(calls[j - 1] != Call::GetJob(engine_id));
    }
}

/// Quiescence, in terms of what has happened: a dispatcher that started
/// fresh and is still open answers the next call of `get_job` with `Closed`
/// exactly when no URL waits and every engine that has asked for work is
/// idle.
pub proof fn law_quiescence(calls: Seq<Call>)
    requires
        !ShedulerView::fresh().after_all(calls).engines_stoped,
    ensures
        ({
            let s = ShedulerView::fresh().after_all(calls);
            s.job() is Closed <==> s.state.wait_list.len() == 0 && forall|engine_id: i32| #[trigger]
                asked(calls, engine_id) ==> s.engines[engine_id] == EngineState::Idle
        }),
{
    let s = ShedulerView::fresh().after_all(calls);
    if s.all_idle() {
        assert forall|engine_id: i32| #[trigger]
            asked(calls, engine_id) implies s.engines[engine_id] == EngineState::Idle by {
            law_known_engines_are_those_that_asked(calls, engine_id);
        }
    }
    if forall|engine_id: i32| #[trigger]
        asked(calls, engine_id) ==> s.engines[engine_id] == EngineState::Idle {
        assert forall|engine_id: i32| #[trigger]
            s.engines.contains_key(engine_id) implies s.engines[engine_id]
            == EngineState::Idle by {
            law_known_engines_are_those_that_asked(calls, engine_id);
        }
    }
}

/// An engine that is told to wait is told to wait for 5000 milliseconds, to
/// the nanosecond.
pub proof fn law_wait_is_five_seconds(s: ShedulerView)
    ensures
        s.job() matches JobView::Idle(nanos) ==> nanos == 5000 * 1_000_000,
{
}

} // verus!
