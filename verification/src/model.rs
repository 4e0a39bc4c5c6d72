//! The dispatcher as a mathematical object.
//!
//! Every operation of the dispatcher is a function from one value of
//! [`ShedulerView`] to the next, and what `get_job` answers is a function of
//! the value before the call. The executable code is verified against these
//! functions, and the laws of the dispatcher are proved about them.

use crate::outside::url_text;
use crate::shed::EngineState;
use url::Url;
use vstd::prelude::*;

verus! {

/// How long an engine that found no work is told to stay away, in
/// milliseconds.
pub const IDLE_MILLIS: u64 = 5000;

/// The same time in nanoseconds.
pub open spec fn idle_nanos() -> nat {
    (IDLE_MILLIS * 1_000_000) as nat
}

/// The frontier: the texts of all URLs ever reported, and the URLs that wait
/// to be handed out, the most recently added one last.
pub struct StateView {
    pub seen_list: Set<Seq<char>>,
    pub wait_list: Seq<Url>,
}

impl StateView {
    /// The frontier that has seen nothing.
    pub open spec fn empty() -> StateView {
        StateView { seen_list: Set::empty(), wait_list: Seq::empty() }
    }

    /// Every waiting URL has been seen, and no two waiting URLs have the same
    /// text.
    pub open spec fn wf(self) -> bool {
        &&& forall|i: int|
            0 <= i < self.wait_list.len() ==> self.seen_list.contains(
                url_text(#[trigger] self.wait_list[i]),
            )
        &&& forall|i: int, j: int|
            0 <= i < j < self.wait_list.len() ==> url_text(#[trigger] self.wait_list[i])
                != url_text(#[trigger] self.wait_list[j])
    }

    /// Whether a URL with the text `text` waits to be handed out.
    pub open spec fn waits(self, text: Seq<char>) -> bool {
        exists|i: int|
            0 <= i < self.wait_list.len() && url_text(#[trigger] self.wait_list[i]) == text
    }

    /// The frontier after `url` is reported: a URL whose text is new is
    /// remembered and put on top of the waiting URLs; any other changes
    /// nothing.
    pub open spec fn update_url(self, url: Url) -> StateView {
        if self.seen_list.contains(url_text(url)) {
            self
        } else {
            StateView {
                seen_list: self.seen_list.insert(url_text(url)),
                wait_list: self.wait_list.push(url),
            }
        }
    }

    /// The frontier after the URLs of `urls` are reported one by one, the
    /// first one first.
    pub open spec fn update(self, urls: Seq<Url>) -> StateView
        decreases urls.len(),
    {
        if urls.len() == 0 {
            self
        } else {
            self.update(urls.drop_last()).update_url(urls.last())
        }
    }

    /// The frontier after its topmost waiting URL is taken.
    pub open spec fn pop(self) -> StateView {
        StateView { seen_list: self.seen_list, wait_list: self.wait_list.drop_last() }
    }
}

/// What an engine is told when it asks for work.
pub enum JobView {
    /// Crawl this URL.
    Search(Url),
    /// Nothing to do now; ask again after this many nanoseconds.
    Idle(nat),
    /// The crawl is over.
    Closed,
}

/// The dispatcher: what it knows of each engine that has been given an
/// answer other than `Closed`, the frontier, and whether the crawl is over.
pub struct ShedulerView {
    pub engines: Map<i32, EngineState>,
    pub state: StateView,
    pub engines_stoped: bool,
}

impl ShedulerView {
    /// The dispatcher before anything has happened.
    pub open spec fn fresh() -> ShedulerView {
        ShedulerView { engines: Map::empty(), state: StateView::empty(), engines_stoped: false }
    }

    /// The frontier is well formed.
    pub open spec fn wf(self) -> bool {
        self.state.wf()
    }

    /// Every engine that the dispatcher knows is idle. With no engine known
    /// this holds.
    pub open spec fn all_idle(self) -> bool {
        forall|id: i32| #[trigger]
            self.engines.contains_key(id) ==> self.engines[id] == EngineState::Idle
    }

    /// Nobody works and nothing waits: the crawl has come to its end.
    pub open spec fn quiescent(self) -> bool {
        self.all_idle() && self.state.wait_list.len() == 0
    }

    /// What `get_job` answers in this state, whoever asks.
    pub open spec fn job(self) -> JobView {
        if self.engines_stoped || self.quiescent() {
            JobView::Closed
        } else if self.state.wait_list.len() > 0 {
            JobView::Search(self.state.wait_list.last())
        } else {
            JobView::Idle(idle_nanos())
        }
    }

    /// The dispatcher after engine `engine_id` has asked for work.
    ///
    /// A closed dispatcher stays as it is. An open one closes when it is
    /// quiescent; else it hands out the topmost waiting URL and marks the
    /// engine as working, or, with nothing waiting, marks it as idle.
    pub open spec fn get_job(self, engine_id: i32) -> ShedulerView {
        if self.engines_stoped {
            self
        } else if self.quiescent() {
            self.close()
        } else if self.state.wait_list.len() > 0 {
            ShedulerView { state: self.state.pop(), ..self }.set_engine_state(
                engine_id,
                EngineState::Work,
            )
        } else {
            self.set_engine_state(engine_id, EngineState::Idle)
        }
    }

    /// The dispatcher after `url` is reported.
    pub open spec fn mark_url(self, url: Url) -> ShedulerView {
        ShedulerView { state: self.state.update_url(url), ..self }
    }

    /// The dispatcher after the URLs of `urls` are reported, the first one
    /// first.
    pub open spec fn mark_urls(self, urls: Seq<Url>) -> ShedulerView {
        ShedulerView { state: self.state.update(urls), ..self }
    }

    /// The dispatcher after it is closed.
    pub open spec fn close(self) -> ShedulerView {
        ShedulerView { engines_stoped: true, ..self }
    }

    /// The dispatcher after engine `id` is recorded as being in `state`.
    pub open spec fn set_engine_state(self, id: i32, state: EngineState) -> ShedulerView {
        ShedulerView { engines: self.engines.insert(id, state), ..self }
    }

    /// The dispatcher after `call`.
    pub open spec fn after(self, call: Call) -> ShedulerView {
        match call {
            Call::MarkUrl(url) => self.mark_url(url),
            Call::MarkUrls(urls) => self.mark_urls(urls),
            Call::GetJob(engine_id) => self.get_job(engine_id),
            Call::Close => self.close(),
        }
    }

    /// The dispatcher after the calls of `calls`, the first one first.
    pub open spec fn after_all(self, calls: Seq<Call>) -> ShedulerView
        decreases calls.len(),
    {
        if calls.len() == 0 {
            self
        } else {
            self.after_all(calls.drop_last()).after(calls.last())
        }
    }

    /// The dispatcher at the moment when call number `i` of `calls` is made:
    /// after the `i` calls before it.
    pub open spec fn before(self, calls: Seq<Call>, i: int) -> ShedulerView {
        self.after_all(calls.take(i))
    }
}

/// One call that changes the dispatcher.
pub enum Call {
    /// `mark_url` with this URL.
    MarkUrl(Url),
    /// `mark_urls` with these URLs.
    MarkUrls(Seq<Url>),
    /// `get_job` by the engine with this id.
    GetJob(i32),
    /// `close`.
    Close,
}

} // verus!
