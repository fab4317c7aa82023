//! Routing of event identifiers to handlers: an ordered table in which the
//! first pattern that matches decides.

use vstd::prelude::*;
use crate::text::{chars_of, has_prefix, same_chars, starts_with};

verus! {

/// What the host does after an event was handled.
#[derive(Debug, Clone, Copy, PartialEq, Eq, Structural)]
pub enum HandlerResult {
    Continue,
    Quit,
}

/// Why a handler failed.
#[derive(Debug, Clone)]
pub struct HandlerError {
    pub message: String,
}

impl HandlerError {
    /// An error with the message `message`.
    pub fn new(message: &str) -> (r: HandlerError)
        ensures
            r.message@ == message@,
    {
        HandlerError { message: message.to_owned() }
    }
}

/// Something that can be called with an event identifier.
pub trait Handler: Send + Sync {
    /// The handler may be called with `event_id`.
    spec fn accepts(&self, event_id: &str) -> bool;

    /// The handler may return `r` when called with `event_id`.
    spec fn outcome(&self, event_id: &str, r: Result<HandlerResult, HandlerError>) -> bool;

    /// Handles the event.
    fn handle(&self, event_id: &str) -> (r: Result<HandlerResult, HandlerError>)
        requires
            self.accepts(event_id),
        ensures
            self.outcome(event_id, r),
    ;
}

impl<F: Fn(&str) -> Result<HandlerResult, HandlerError> + Send + Sync> Handler for F {
    open spec fn accepts(&self, event_id: &str) -> bool {
        call_requires(*self, (event_id,))
    }

    open spec fn outcome(&self, event_id: &str, r: Result<HandlerResult, HandlerError>) -> bool {
        call_ensures(*self, (event_id,), r)
    }

    fn handle(&self, event_id: &str) -> (r: Result<HandlerResult, HandlerError>) {
        self(event_id)
    }
}

/// The handler of a route.
pub enum EventHandler {
    Sync(Box<dyn Handler>),
}

impl EventHandler {
    /// The handler may be called with `event_id`.
    pub open spec fn accepts(&self, event_id: &str) -> bool {
        match self {
            EventHandler::Sync(f) => f.accepts(event_id),
        }
    }

    /// The handler may return `r` when called with `event_id`.
    pub open spec fn outcome(&self, event_id: &str, r: Result<HandlerResult, HandlerError>) -> bool {
        match self {
            EventHandler::Sync(f) => f.outcome(event_id, r),
        }
    }

    /// The handler that calls `handler`.
    pub fn from_handler<H: Handler + 'static>(handler: H) -> (r: EventHandler)
        ensures
            forall|e: &str| #[trigger] r.accepts(e) == handler.accepts(e),
            forall|e: &str, out: Result<HandlerResult, HandlerError>| #[trigger]
                r.outcome(e, out) == handler.outcome(e, out),
    {
        EventHandler::Sync(Box::new(handler))
    }

    /// Calls the handler with `event_id`.
    pub fn call(&self, event_id: &str) -> (r: Result<HandlerResult, HandlerError>)
        requires
            self.accepts(event_id),
        ensures
            self.outcome(event_id, r),
    {
        match self {
            EventHandler::Sync(f) => f.handle(event_id),
        }
    }
}

/// Which event identifiers a route takes.
#[derive(Debug, Clone)]
pub enum EventPattern {
    /// The identifier that equals the text.
    Exact(String),
    /// Every identifier that begins with the text.
    Prefix(String),
}

/// The mathematical content of a pattern.
pub enum PatternModel {
    Exact(Seq<char>),
    Prefix(Seq<char>),
}

impl PatternModel {
    /// The pattern takes the identifier `event_id`.
    pub open spec fn accepts(self, event_id: Seq<char>) -> bool {
        match self {
            PatternModel::Exact(s) => s == event_id,
            PatternModel::Prefix(p) => has_prefix(event_id, p),
        }
    }
}

impl View for EventPattern {
    type V = PatternModel;

    open spec fn view(&self) -> PatternModel {
        match self {
            EventPattern::Exact(s) => PatternModel::Exact(s@),
            EventPattern::Prefix(p) => PatternModel::Prefix(p@),
        }
    }
}

impl EventPattern {
    /// Whether the pattern takes `event_id`. Matching changes nothing.
    pub fn matches(&self, event_id: &str) -> (r: bool)
        ensures
            r == self@.accepts(event_id@),
    {
        let id = chars_of(event_id);
        match self {
            EventPattern::Exact(s) => {
                let text = chars_of(s.as_str());
                same_chars(&text, &id)
            },
            EventPattern::Prefix(p) => {
                let text = chars_of(p.as_str());
                starts_with(&id, &text)
            },
        }
    }
}

/// One line of the routing table.
pub struct EventRoute {
    pub pattern: EventPattern,
    pub handler: EventHandler,
}

/// Route `i` is the first of `routes` whose pattern takes `event_id`.
pub open spec fn is_first_match(routes: Seq<EventRoute>, event_id: Seq<char>, i: int) -> bool {
    &&& 0 <= i < routes.len()
    &&& routes[i].pattern@.accepts(event_id)
    &&& forall|j: int| 0 <= j < i ==> !(#[trigger] routes[j]).pattern@.accepts(event_id)
}

/// No pattern of `routes` takes `event_id`.
pub open spec fn no_match(routes: Seq<EventRoute>, event_id: Seq<char>) -> bool {
    forall|j: int| 0 <= j < routes.len() ==> !(#[trigger] routes[j]).pattern@.accepts(event_id)
}

/// The routing table. It is never changed after it was made.
pub struct EventRouter {
    routes: Vec<EventRoute>,
}

impl EventRouter {
    /// The routes of the table, in the order in which they are tried.
    pub closed spec fn routes(&self) -> Seq<EventRoute> {
        self.routes@
    }

    /// The handler that is in charge of `event_id` may be called with it.
    pub open spec fn can_route(&self, event_id: &str) -> bool {
        forall|i: int|
            is_first_match(self.routes(), event_id@, i) ==> (#[trigger] self.routes()[i]).handler.accepts(
                event_id,
            )
    }

    /// A table with the routes `routes`, tried in that order.
    pub fn new(routes: Vec<EventRoute>) -> (r: Self)
        ensures
            r.routes() == routes@,
    {
        Self { routes }
    }

    /// The index of the route that is in charge of `event_id`: the first one
    /// whose pattern takes it.
    pub fn resolve(&self, event_id: &str) -> (r: Option<usize>)
        ensures
            match r {
                Some(i) => is_first_match(self.routes(), event_id@, i as int),
                None => no_match(self.routes(), event_id@),
            },
    {
        let mut i: usize = 0;
        while i < self.routes.len()
            invariant
                i <= self.routes.len(),
                forall|j: int| 0 <= j < i ==> !(#[trigger] self.routes@[j]).pattern@.accepts(event_id@),
            decreases self.routes.len() - i,
        {
            if self.routes[i].pattern.matches(event_id) {
                return Some(i);
            }
            i += 1;
        }
        None
    }

    /// Hands `event_id` to the handler of the first route whose pattern takes
    /// it, and returns what that handler returns. Where no pattern takes it,
    /// no handler is called and the host continues.
    pub fn route(&self, event_id: &str) -> (r: Result<HandlerResult, HandlerError>)
        requires
            self.can_route(event_id),
        ensures
            no_match(self.routes(), event_id@) ==> r == Ok::<HandlerResult, HandlerError>(
                HandlerResult::Continue,
            ),
            forall|i: int|
                is_first_match(self.routes(), event_id@, i) ==> (#[trigger] self.routes()[i]).handler.outcome(
                    event_id,
                    r,
                ),
    {
        match self.resolve(event_id) {
            Some(i) => {
                assert(is_first_match(self.routes(), event_id@, i as int));
                let r = self.routes[i].handler.call(event_id);
                proof {
                    lemma_first_match_unique(self.routes(), event_id@, i as int);
                }
                r
            },
            None => Ok(HandlerResult::Continue),
        }
    }
}

/// A table whose handlers can all be called with an event can route it.
pub proof fn lemma_can_route(router: EventRouter, event_id: &str)
    requires
        forall|i: int|
            0 <= i < router.routes().len() ==> (#[trigger] router.routes()[i]).handler.accepts(
                event_id,
            ),
    ensures
        router.can_route(event_id),
{
}

/// At most one route is the first match, and if there is one, some pattern
/// takes the identifier.
pub proof fn lemma_first_match_unique(routes: Seq<EventRoute>, event_id: Seq<char>, i: int)
    requires
        is_first_match(routes, event_id, i),
    ensures
        !no_match(routes, event_id),
        forall|k: int| is_first_match(routes, event_id, k) ==> k == i,
{
    assert(routes[i].pattern@.accepts(event_id));
    assert forall|k: int| is_first_match(routes, event_id, k) implies k == i by {
        if k < i {
            assert(!routes[k].pattern@.accepts(event_id));
        } else if i < k {
            assert(!routes[i].pattern@.accepts(event_id));
        }
    }
}

/// An identifier is taken by a prefix pattern exactly if it begins with the
/// prefix, and by an exact pattern exactly if it equals the text.
pub proof fn lemma_pattern_meaning(text: Seq<char>, event_id: Seq<char>)
    ensures
        PatternModel::Exact(text).accepts(event_id) <==> event_id == text,
        PatternModel::Prefix(text).accepts(event_id) <==> (text.len() <= event_id.len()
            && event_id.take(text.len() as int) == text),
{
    if text.len() <= event_id.len() {
        assert(event_id.take(text.len() as int) == event_id.subrange(0, 0 + text.len() as int));
    }
}

} // verus!
