//! Lemmas about the model on which the laws rest.

use crate::model::{Call, JobView, ShedulerView, StateView};
use crate::outside::url_text;
use url::Url;
use vstd::prelude::*;

verus! {

/// No two of `urls` have the same text.
pub open spec fn distinct(urls: Seq<Url>) -> bool {
    forall|i: int, j: int|
        0 <= i < j < urls.len() ==> url_text(#[trigger] urls[i]) != url_text(#[trigger] urls[j])
}

/// None of `urls` has a text that `state` has seen.
pub open spec fn unseen(state: StateView, urls: Seq<Url>) -> bool {
    forall|i: int| 0 <= i < urls.len() ==> !state.seen_list.contains(url_text(#[trigger] urls[i]))
}

/// One of `urls` has the text `text`.
pub open spec fn has_text(urls: Seq<Url>, text: Seq<char>) -> bool {
    exists|i: int| 0 <= i < urls.len() && url_text(#[trigger] urls[i]) == text
}

/// All of `calls` are calls of `get_job`.
pub open spec fn only_get_job(calls: Seq<Call>) -> bool {
    forall|i: int| 0 <= i < calls.len() ==> #[trigger] calls[i] is GetJob
}

/// The text `text` has been seen and no URL with it waits: no URL with this
/// text will be handed out any more.
pub open spec fn spent(s: ShedulerView, text: Seq<char>) -> bool {
    s.state.seen_list.contains(text) && !s.state.waits(text)
}

/// Reporting one URL keeps the frontier well formed.
pub proof fn lemma_update_url_wf(state: StateView, url: Url)
    requires
        state.wf(),
    ensures
        state.update_url(url).wf(),
{
}

/// Reporting URLs keeps the frontier well formed.
pub proof fn lemma_update_wf(state: StateView, urls: Seq<Url>)
    requires
        state.wf(),
    ensures
        state.update(urls).wf(),
    decreases urls.len(),
{
    if urls.len() > 0 {
        lemma_update_wf(state, urls.drop_last());
        lemma_update_url_wf(state.update(urls.drop_last()), urls.last());
    }
}

/// After URLs are reported, the texts seen are those seen before and those
/// of the URLs.
pub proof fn lemma_update_seen(state: StateView, urls: Seq<Url>, text: Seq<char>)
    ensures
        state.update(urls).seen_list.contains(text) <==> state.seen_list.contains(text) || has_text(
            urls,
            text,
        ),
    decreases urls.len(),
{
    if urls.len() > 0 {
        let front = urls.drop_last();
        lemma_update_seen(state, front, text);
        if has_text(front, text) {
            let i = choose|i: int| 0 <= i < front.len() && url_text(#[trigger] front[i]) == text;
            assert(url_text(urls[i]) == text);
        }
        if has_text(urls, text) {
            let i = choose|i: int| 0 <= i < urls.len() && url_text(#[trigger] urls[i]) == text;
            if i < front.len() {
                assert(url_text(front[i]) == text);
            }
        }
        if url_text(urls.last()) == text {
            assert(url_text(urls[urls.len() - 1]) == text);
        }
    }
}

/// Reporting URLs that are new and distinct puts all of them on top of the
/// waiting URLs, in the order in which they were given.
pub proof fn lemma_update_new(state: StateView, urls: Seq<Url>)
    requires
        distinct(urls),
        unseen(state, urls),
    ensures
        state.update(urls).wait_list == state.wait_list + urls,
    decreases urls.len(),
{
    if urls.len() > 0 {
        let front = urls.drop_last();
        let text = url_text(urls.last());
        lemma_update_new(state, front);
        lemma_update_seen(state, front, text);
        if has_text(front, text) {
            let i = choose|i: int| 0 <= i < front.len() && url_text(#[trigger] front[i]) == text;
            assert(url_text(urls[i]) == text);
        }
        assert(state.update(front).wait_list.push(urls.last()) == state.wait_list + urls);
    } else {
        assert(state.wait_list + urls == state.wait_list);
    }
}

/// Every call keeps the dispatcher well formed.
pub proof fn lemma_after_wf(s: ShedulerView, call: Call)
    requires
        s.wf(),
    ensures
        s.after(call).wf(),
{
    match call {
        Call::MarkUrl(url) => lemma_update_url_wf(s.state, url),
        Call::MarkUrls(urls) => lemma_update_wf(s.state, urls),
        Call::GetJob(_) => {},
        Call::Close => {},
    }
}

/// The dispatcher before the first call is the dispatcher as it was, and
/// the dispatcher before call `i + 1` is the dispatcher before call `i`,
/// after call `i`.
pub proof fn lemma_before_next(s: ShedulerView, calls: Seq<Call>, i: int)
    requires
        0 <= i < calls.len(),
    ensures
        s.before(calls, 0) == s,
        s.before(calls, i + 1) == s.before(calls, i).after(calls[i]),
{
    assert(calls.take(i + 1).drop_last() == calls.take(i));
    assert(calls.take(i + 1).last() == calls[i]);
}

/// The dispatcher before call `j` is the dispatcher before an earlier call
/// `i`, after the calls from `i` on.
pub proof fn lemma_before_split(s: ShedulerView, calls: Seq<Call>, i: int, j: int)
    requires
        0 <= i <= j <= calls.len(),
    ensures
        s.before(calls, j) == s.before(calls, i).before(calls.skip(i), j - i),
    decreases j - i,
{
    if i < j {
        lemma_before_split(s, calls, i, j - 1);
        lemma_before_next(s, calls, j - 1);
        lemma_before_next(s.before(calls, i), calls.skip(i), j - 1 - i);
    }
}

/// Any calls keep the dispatcher well formed.
pub proof fn lemma_before_wf(s: ShedulerView, calls: Seq<Call>, i: int)
    requires
        s.wf(),
        0 <= i <= calls.len(),
    ensures
        s.before(calls, i).wf(),
    decreases i,
{
    if i > 0 {
        lemma_before_wf(s, calls, i - 1);
        lemma_before_next(s, calls, i - 1);
        lemma_after_wf(s.before(calls, i - 1), calls[i - 1]);
    }
}

/// A closed dispatcher stays closed, whatever is called.
pub proof fn lemma_closed_stays(s: ShedulerView, calls: Seq<Call>, i: int)
    requires
        s.engines_stoped,
        0 <= i <= calls.len(),
    ensures
        s.before(calls, i).engines_stoped,
    decreases i,
{
    if i > 0 {
        lemma_closed_stays(s, calls, i - 1);
        lemma_before_next(s, calls, i - 1);
    }
}

/// A dispatcher that is open after some calls was open before each of them.
pub proof fn lemma_open_before(s: ShedulerView, calls: Seq<Call>, i: int, j: int)
    requires
        0 <= i <= j <= calls.len(),
        !s.before(calls, j).engines_stoped,
    ensures
        !s.before(calls, i).engines_stoped,
{
    if s.before(calls, i).engines_stoped {
        lemma_before_split(s, calls, i, j);
        lemma_closed_stays(s.before(calls, i), calls.skip(i), j - i);
    }
}

/// Reporting one URL leaves a spent text spent.
proof fn lemma_update_url_spent(state: StateView, url: Url, text: Seq<char>)
    requires
        state.seen_list.contains(text),
        !state.waits(text),
    ensures
        state.update_url(url).seen_list.contains(text),
        !state.update_url(url).waits(text),
{
    let next = state.update_url(url);
    if next.waits(text) {
        let i = choose|i: int|
            0 <= i < next.wait_list.len() && url_text(#[trigger] next.wait_list[i]) == text;
        if i < state.wait_list.len() {
            assert(url_text(state.wait_list[i]) == text);
        }
    }
}

/// Reporting URLs leaves a spent text spent.
proof fn lemma_update_spent(state: StateView, urls: Seq<Url>, text: Seq<char>)
    requires
        state.seen_list.contains(text),
        !state.waits(text),
    ensures
        state.update(urls).seen_list.contains(text),
        !state.update(urls).waits(text),
    decreases urls.len(),
{
    if urls.len() > 0 {
        lemma_update_spent(state, urls.drop_last(), text);
        lemma_update_url_spent(state.update(urls.drop_last()), urls.last(), text);
    }
}

/// No call makes a spent text wait again.
proof fn lemma_after_spent(s: ShedulerView, call: Call, text: Seq<char>)
    requires
        spent(s, text),
    ensures
        spent(s.after(call), text),
{
    match call {
        Call::MarkUrl(url) => lemma_update_url_spent(s.state, url, text),
        Call::MarkUrls(urls) => lemma_update_spent(s.state, urls, text),
        Call::GetJob(engine_id) => {
            let next = s.get_job(engine_id);
            if next.state.waits(text) {
                let i = choose|i: int|
                    0 <= i < next.state.wait_list.len() && url_text(
                        #[trigger] next.state.wait_list[i],
                    ) == text;
                assert(url_text(s.state.wait_list[i]) == text);
            }
        },
        Call::Close => {},
    }
}

/// No calls make a spent text wait again.
pub proof fn lemma_before_spent(s: ShedulerView, calls: Seq<Call>, i: int, text: Seq<char>)
    requires
        spent(s, text),
        0 <= i <= calls.len(),
    ensures
        spent(s.before(calls, i), text),
    decreases i,
{
    if i > 0 {
        lemma_before_spent(s, calls, i - 1, text);
        lemma_before_next(s, calls, i - 1);
        lemma_after_spent(s.before(calls, i - 1), calls[i - 1], text);
    }
}

/// The text of a URL that is handed out is spent from then on.
pub proof fn lemma_handed_out_is_spent(s: ShedulerView, engine_id: i32)
    requires
        s.wf(),
        s.job() is Search,
    ensures
        spent(s.get_job(engine_id), url_text(s.job()->Search_0)),
{
    let next = s.get_job(engine_id);
    let last = s.state.wait_list.len() - 1;
    let text = url_text(s.state.wait_list[last]);
    if next.state.waits(text) {
        let i = choose|i: int|
            0 <= i < next.state.wait_list.len() && url_text(#[trigger] next.state.wait_list[i])
                == text;
        assert(url_text(s.state.wait_list[i]) == text);
    }
}

/// A URL with a spent text is not handed out.
pub proof fn lemma_spent_is_not_handed_out(s: ShedulerView, text: Seq<char>)
    requires
        spent(s, text),
    ensures
        s.job() matches JobView::Search(url) ==> url_text(url) != text,
{
    if s.job() is Search {
        let last = s.state.wait_list.len() - 1;
        assert(url_text(s.state.wait_list[last]) != text);
    }
}

/// The frontier `now` has come from the frontier `then` by taking waiting
/// URLs off the top and putting new ones there: its lowest `keep` waiting
/// URLs are those of `then`, all above them were unseen by `then`, and it
/// has seen what `then` had seen.
pub open spec fn grown_from(now: StateView, then: StateView, keep: int) -> bool {
    &&& 0 <= keep <= then.wait_list.len()
    &&& keep <= now.wait_list.len()
    &&& now.wait_list.take(keep) == then.wait_list.take(keep)
    &&& forall|p: int|
        keep <= p < now.wait_list.len() ==> !then.seen_list.contains(
            url_text(#[trigger] now.wait_list[p]),
        )
    &&& forall|text: Seq<char>| #[trigger]
        then.seen_list.contains(text) ==> now.seen_list.contains(text)
}

/// Reporting one URL lets the frontier grow as `grown_from` says.
proof fn lemma_update_url_grown(now: StateView, url: Url, then: StateView, keep: int)
    requires
        grown_from(now, then, keep),
    ensures
        grown_from(now.update_url(url), then, keep),
{
    let next = now.update_url(url);
    assert(next.wait_list.take(keep) == now.wait_list.take(keep));
}

/// Reporting URLs lets the frontier grow as `grown_from` says.
proof fn lemma_update_grown(now: StateView, urls: Seq<Url>, then: StateView, keep: int)
    requires
        grown_from(now, then, keep),
    ensures
        grown_from(now.update(urls), then, keep),
    decreases urls.len(),
{
    if urls.len() > 0 {
        lemma_update_grown(now, urls.drop_last(), then, keep);
        lemma_update_url_grown(now.update(urls.drop_last()), urls.last(), then, keep);
    }
}

/// Every call lets the frontier grow as `grown_from` says. The result is
/// the number of waiting URLs of `then` that are left untouched.
proof fn lemma_after_grown(s: ShedulerView, call: Call, then: StateView, keep: int) -> (left: int)
    requires
        grown_from(s.state, then, keep),
    ensures
        grown_from(s.after(call).state, then, left),
{
    match call {
        Call::MarkUrl(url) => {
            lemma_update_url_grown(s.state, url, then, keep);
            keep
        },
        Call::MarkUrls(urls) => {
            lemma_update_grown(s.state, urls, then, keep);
            keep
        },
        Call::GetJob(engine_id) => {
            let next = s.get_job(engine_id).state;
            if next.wait_list.len() >= keep {
                assert(next.wait_list.take(keep) == s.state.wait_list.take(keep));
                keep
            } else {
                assert(next.wait_list.take(keep - 1) == s.state.wait_list.take(keep).take(
                    keep - 1,
                ));
                assert(then.wait_list.take(keep - 1) == then.wait_list.take(keep).take(keep - 1));
                keep - 1
            }
        },
        Call::Close => keep,
    }
}

/// Between any two moments the frontier grows as `grown_from` says. The
/// result is the number of waiting URLs of the earlier moment that are left
/// untouched at the later one.
pub proof fn lemma_before_grown(s: ShedulerView, calls: Seq<Call>, i: int, j: int) -> (left: int)
    requires
        0 <= i <= j <= calls.len(),
    ensures
        grown_from(s.before(calls, j).state, s.before(calls, i).state, left),
    decreases j - i,
{
    let then = s.before(calls, i).state;
    if i == j {
        let all = then.wait_list.len() as int;
        assert(then.wait_list.take(all) == then.wait_list);
        all
    } else {
        let keep = lemma_before_grown(s, calls, i, j - 1);
        lemma_before_next(s, calls, j - 1);
        lemma_after_grown(s.before(calls, j - 1), calls[j - 1], then, keep)
    }
}

/// As long as URLs wait, each call of `get_job` on an open dispatcher takes
/// the topmost one and leaves the dispatcher open.
pub proof fn lemma_get_job_pops(s: ShedulerView, calls: Seq<Call>, k: int)
    requires
        !s.engines_stoped,
        only_get_job(calls),
        0 <= k <= calls.len(),
        k <= s.state.wait_list.len(),
    ensures
        !s.before(calls, k).engines_stoped,
        s.before(calls, k).state.wait_list == s.state.wait_list.take(s.state.wait_list.len() - k),
    decreases k,
{
    if k > 0 {
        lemma_get_job_pops(s, calls, k - 1);
        lemma_before_next(s, calls, k - 1);
        let waiting = s.state.wait_list;
        let len = waiting.len();
        assert(waiting.take(len - (k - 1)).drop_last() == waiting.take(len - k));
    } else {
        assert(s.state.wait_list.take(s.state.wait_list.len() as int) == s.state.wait_list);
    }
}

/// When no URL waits, none waits after any calls of `get_job`.
pub proof fn lemma_get_job_finds_nothing(s: ShedulerView, calls: Seq<Call>, k: int)
    requires
        s.state.wait_list.len() == 0,
        only_get_job(calls),
        0 <= k <= calls.len(),
    ensures
        s.before(calls, k).state.wait_list.len() == 0,
    decreases k,
{
    if k > 0 {
        lemma_get_job_finds_nothing(s, calls, k - 1);
        lemma_before_next(s, calls, k - 1);
    }
}

} // verus!
