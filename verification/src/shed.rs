//! The dispatcher and its frontier.

use crate::model::{JobView, ShedulerView, StateView, IDLE_MILLIS};
use crate::outside::duration_nanos;
use std::collections::HashMap;
use std::time::Duration;
use url::Url;
use vstd::hash_set::StringHashSet;
use vstd::prelude::*;
use vstd::std_specs::hash::group_hash_axioms;
use vstd::std_specs::iter::IteratorSpec;

verus! {

/// The frontier of the crawl: which URLs have been seen, and which of them
/// still wait to be handed out.
pub struct State {
    seen_list: StringHashSet,
    wait_list: Vec<Url>,
}

impl View for State {
    type V = StateView;

    closed spec fn view(&self) -> StateView {
        StateView { seen_list: self.seen_list@, wait_list: self.wait_list@ }
    }
}

impl Default for State {
    /// The frontier that has seen nothing.
    fn default() -> (state: State)
        ensures
            state@ == StateView::empty(),
            state@.wf(),
    {
        State { seen_list: StringHashSet::new(), wait_list: Vec::new() }
    }
}

impl State {
    /// Reports `urls`, the first one first.
    pub fn update(&mut self, urls: Vec<Url>)
        ensures
            final(self)@ == old(self)@.update(urls@),
            old(self)@.wf() ==> final(self)@.wf(),
    {
        let ghost before = self@;
        for url in it: urls
            invariant
                self@ == before.update(urls@.take(it.index())),
                before.wf() ==> self@.wf(),
                it.seq() == urls@,
        {
            proof {
                let i = it.index();
                assert(urls@.take(i + 1).drop_last() == urls@.take(i));
            }
            self.update_url(url);
        }
        proof {
            assert(urls@.take(urls@.len() as int) == urls@);
        }
    }

    /// Reports one URL. A URL whose text was reported before changes
    /// nothing; a new one is remembered and put on top of the waiting URLs.
    pub fn update_url(&mut self, url: Url)
        ensures
            final(self)@ == old(self)@.update_url(url),
            old(self)@.wf() ==> final(self)@.wf(),
    {
        if !self.seen_list.contains(url.as_str()) {
            self.seen_list.insert(url.as_str().to_owned());
            self.wait_list.push(url);
        }
    }
}

/// What the dispatcher tells an engine that asks for work.
#[derive(Debug, Eq, PartialEq)]
pub enum Job {
    /// Crawl this URL.
    Search(Url),
    /// Nothing to do now; ask again after this long.
    Idle(Duration),
    /// The crawl is over; stop asking.
    Closed,
}

impl View for Job {
    type V = JobView;

    open spec fn view(&self) -> JobView {
        match *self {
            Job::Search(url) => JobView::Search(url),
            Job::Idle(pause) => JobView::Idle(duration_nanos(pause)),
            Job::Closed => JobView::Closed,
        }
    }
}

/// What an engine is doing, as far as the dispatcher knows.
#[derive(Clone, Copy, Debug, PartialEq, Eq, Structural)]
pub enum EngineState {
    /// It asked for work and there was none.
    Idle,
    /// It was handed a URL.
    Work,
    /// It exists and has not asked for work yet.
    Created,
}

/// Hands out URLs to the engines of a crawl and notices when the crawl is
/// over: when every engine it knows is idle and no URL waits.
pub struct Sheduler {
    engines: HashMap<i32, EngineState>,
    state: State,
    engines_stoped: bool,
}

impl View for Sheduler {
    type V = ShedulerView;

    closed spec fn view(&self) -> ShedulerView {
        ShedulerView {
            engines: self.engines@,
            state: self.state@,
            engines_stoped: self.engines_stoped,
        }
    }
}

impl Default for Sheduler {
    /// A dispatcher that no engine has asked yet and that has seen no URL.
    fn default() -> (sheduler: Sheduler)
        ensures
            sheduler@ == ShedulerView::fresh(),
            sheduler@.wf(),
    {
        Sheduler { engines: HashMap::new(), state: State::default(), engines_stoped: false }
    }
}

impl Sheduler {
    /// Answers engine `engine_id`, which asks for work.
    ///
    /// A closed dispatcher answers `Closed`. An open one closes, and answers
    /// `Closed`, when every engine it knows is idle and no URL waits. Else
    /// it hands out the URL that was reported last and records the engine
    /// as working; or, when no URL waits, records the engine as idle and
    /// tells it to ask again in five seconds.
    pub fn get_job(&mut self, engine_id: i32) -> (job: Job)
        ensures
            job@ == old(self)@.job(),
            final(self)@ == old(self)@.get_job(engine_id),
            old(self)@.wf() ==> final(self)@.wf(),
    {
        if self.is_closed() {
            return Job::Closed;
        }
        if self.engines_idle() && self.state.wait_list.is_empty() {
            self.close();
            return Job::Closed;
        }
        let url = self.state.wait_list.pop();
        match url {
            Some(url) => {
                self.set_engine_state(engine_id, EngineState::Work);
                Job::Search(url)
            },
            None => {
                self.set_engine_state(engine_id, EngineState::Idle);
                Job::Idle(Duration::from_millis(IDLE_MILLIS))
            },
        }
    }

    /// Reports `urls`, the first one first.
    pub fn mark_urls(&mut self, urls: Vec<Url>)
        ensures
            final(self)@ == old(self)@.mark_urls(urls@),
            old(self)@.wf() ==> final(self)@.wf(),
    {
        self.state.update(urls);
    }

    /// Reports one URL.
    pub fn mark_url(&mut self, url: Url)
        ensures
            final(self)@ == old(self)@.mark_url(url),
            old(self)@.wf() ==> final(self)@.wf(),
    {
        self.state.update_url(url);
    }

    /// Whether the crawl is over.
    pub fn is_closed(&self) -> (closed: bool)
        ensures
            closed == self@.engines_stoped,
    {
        self.engines_stoped
    }

    /// Ends the crawl, whatever the engines are doing.
    pub fn close(&mut self)
        ensures
            final(self)@ == old(self)@.close(),
            old(self)@.wf() ==> final(self)@.wf(),
    {
        self.engines_stoped = true;
    }

    /// Records engine `id` as being in `state`.
    pub(crate) fn set_engine_state(&mut self, id: i32, state: EngineState)
        ensures
            final(self)@ == old(self)@.set_engine_state(id, state),
    {
        broadcast use group_hash_axioms;

        self.engines.insert(id, state);
    }

    /// Whether every engine that the dispatcher knows is idle.
    fn engines_idle(&self) -> (idle: bool)
        ensures
            idle == self@.all_idle(),
    {
        broadcast use group_hash_axioms;

        let ghost states = self.engines.values().remaining().unref();
        for state in it: self.engines.values()
            invariant
                it.seq().unref() == states,
                states.to_set() == self.engines@.values(),
                forall|j: int| 0 <= j < it.index() ==> #[trigger] states[j] == EngineState::Idle,
        {
            if *state != EngineState::Idle {
                proof {
                    assert(states[it.index()] == *state);
                    assert(states.to_set().contains(*state));
                    let id = choose|id: i32|
                        self.engines@.contains_key(id) && #[trigger] self.engines@[id] == *state;
                    assert(self.engines@.contains_key(id));
                }
                return false;
            }
        }
        proof {
            assert forall|id: i32| #[trigger]
                self.engines@.contains_key(id) implies self.engines@[id] == EngineState::Idle by {
                let state = self.engines@[id];
                assert(self.engines@.contains_value(state));
                assert(states.to_set().contains(state));
                let j = choose|j: int| 0 <= j < states.len() && states[j] == state;
                assert(states[j] == EngineState::Idle);
            }
        }
        true
    }
}

} // verus!
