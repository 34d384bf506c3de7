//! The limiter: one cache endpoint, a connection state, the last error, and
//! the admission check in progress.
//!
//! A check runs as a sequence of steps. [`Limiter::begin_check`] and
//! [`Limiter::step`] each return the [`Action`] to perform against the cache;
//! the caller performs it and reports the outcome as an [`Event`], until the
//! action is [`Action::Done`].
use vstd::prelude::*;
use vstd::string::StringExecFns;
use crate::decode::{bucket_value, decode_count};
use crate::endpoint::{parse_url, parsed_url};
use crate::keys::{bucket_key, bucket_key_of, window_keys, window_keys_of};
use crate::window::{decide, decision_of, Decision};

verus! {

/// Why a limiter could not be built or a check could not decide.
#[derive(Debug, PartialEq, Eq)]
pub enum LimitError {
    /// The cache address is not a valid URL.
    InvalidEndpoint,
    /// No connection to the cache could be established.
    Connection(String),
    /// The cache reported an error other than the two expected races.
    Protocol(String),
    /// An event arrived that the check in progress was not waiting for.
    OutOfOrder,
}

pub enum ErrorView {
    InvalidEndpoint,
    Connection(Seq<char>),
    Protocol(Seq<char>),
    OutOfOrder,
}

impl View for LimitError {
    type V = ErrorView;

    open spec fn view(&self) -> ErrorView {
        match self {
            LimitError::InvalidEndpoint => ErrorView::InvalidEndpoint,
            LimitError::Connection(m) => ErrorView::Connection(m@),
            LimitError::Protocol(m) => ErrorView::Protocol(m@),
            LimitError::OutOfOrder => ErrorView::OutOfOrder,
        }
    }
}

impl LimitError {
    /// A copy of this error.
    pub fn duplicate(&self) -> (r: LimitError)
        ensures
            r@ == self@,
    {
        match self {
            LimitError::InvalidEndpoint => LimitError::InvalidEndpoint,
            LimitError::Connection(m) => LimitError::Connection(m.clone()),
            LimitError::Protocol(m) => LimitError::Protocol(m.clone()),
            LimitError::OutOfOrder => LimitError::OutOfOrder,
        }
    }
}

/// The parameters of one admission check.
pub struct Check {
    pub prefix: String,
    pub size: u32,
    pub rate_max: u32,
    pub rate_seconds: u32,
    /// The current Unix time in whole seconds.
    pub now: u64,
    /// How long a bucket lives: one second more than the window.
    pub ttl: u32,
}

pub struct CheckView {
    pub prefix: Seq<char>,
    pub size: u32,
    pub rate_max: u32,
    pub rate_seconds: u32,
    pub now: u64,
    pub ttl: u32,
}

impl View for Check {
    type V = CheckView;

    open spec fn view(&self) -> CheckView {
        CheckView {
            prefix: self.prefix@,
            size: self.size,
            rate_max: self.rate_max,
            rate_seconds: self.rate_seconds,
            now: self.now,
            ttl: self.ttl,
        }
    }
}

/// The key of the bucket that a check counts in.
pub open spec fn current_key(c: CheckView) -> Seq<char> {
    bucket_key_of(c.prefix, c.now as nat)
}

/// Where the check in progress stands.
pub enum Phase {
    Idle,
    /// Waiting for a connection to the cache.
    Connecting(Check),
    /// Waiting for the current bucket to be created if absent.
    Inserting(Check),
    /// Waiting for the window's other buckets.
    Fetching(Check),
    /// Waiting for the current bucket and its token; holds the other counts.
    Reading(Check, Vec<u32>),
    /// Admitted; waiting for the current bucket's update.
    Writing(Check),
}

pub enum PhaseView {
    Idle,
    Connecting(CheckView),
    Inserting(CheckView),
    Fetching(CheckView),
    Reading(CheckView, Seq<u32>),
    Writing(CheckView),
}

impl View for Phase {
    type V = PhaseView;

    open spec fn view(&self) -> PhaseView {
        match self {
            Phase::Idle => PhaseView::Idle,
            Phase::Connecting(c) => PhaseView::Connecting(c@),
            Phase::Inserting(c) => PhaseView::Inserting(c@),
            Phase::Fetching(c) => PhaseView::Fetching(c@),
            Phase::Reading(c, o) => PhaseView::Reading(c@, o@),
            Phase::Writing(c) => PhaseView::Writing(c@),
        }
    }
}

/// The operation to perform next against the cache, or the end of the check.
#[derive(Debug, PartialEq, Eq)]
pub enum Action {
    /// Connect to the cache at this address.
    Connect(String),
    /// Store `value` under `key` for `ttl` seconds unless the key is present.
    Insert { key: String, value: u32, ttl: u32 },
    /// Fetch these keys in one request.
    BatchGet(Vec<String>),
    /// Fetch this key with its compare-and-swap token.
    GetWithToken(String),
    /// Store `value` under `key` for `ttl` seconds if `token` is still current.
    CompareAndSwap { key: String, value: u32, ttl: u32, token: u64 },
    /// The check is over.
    Done(Result<Decision, LimitError>),
}

pub enum ActionView {
    Connect(Seq<char>),
    Insert { key: Seq<char>, value: u32, ttl: u32 },
    BatchGet(Seq<Seq<char>>),
    GetWithToken(Seq<char>),
    CompareAndSwap { key: Seq<char>, value: u32, ttl: u32, token: u64 },
    Done(Result<Decision, ErrorView>),
}

impl View for Action {
    type V = ActionView;

    open spec fn view(&self) -> ActionView {
        match self {
            Action::Connect(e) => ActionView::Connect(e@),
            Action::Insert { key, value, ttl } => ActionView::Insert { key: key@, value: *value, ttl: *ttl },
            Action::BatchGet(keys) => ActionView::BatchGet(keys@.map_values(|k: String| k@)),
            Action::GetWithToken(key) => ActionView::GetWithToken(key@),
            Action::CompareAndSwap { key, value, ttl, token } => ActionView::CompareAndSwap {
                key: key@,
                value: *value,
                ttl: *ttl,
                token: *token,
            },
            Action::Done(Ok(d)) => ActionView::Done(Ok(*d)),
            Action::Done(Err(e)) => ActionView::Done(Err(e@)),
        }
    }
}

/// What the cache answered to the last action.
pub enum Event {
    /// The connection was established.
    Connected,
    /// The connection could not be established.
    ConnectFailed(String),
    /// The insert finished: `true` if it created the key, `false` if the key
    /// was already there.
    Inserted(Result<bool, String>),
    /// The batch fetch finished, with one entry per requested key, in the
    /// order requested: the stored bytes, or `None` where the key is absent.
    Fetched(Result<Vec<Option<Vec<u8>>>, String>),
    /// The fetch with token finished: the stored bytes and the token, or
    /// `None` where the key is absent.
    TokenRead(Result<Option<(Vec<u8>, Option<u64>)>, String>),
    /// The compare-and-swap finished: `true` if it stored, `false` if the
    /// token was stale.
    Swapped(Result<bool, String>),
}

pub enum EventView {
    Connected,
    ConnectFailed(Seq<char>),
    Inserted(Result<bool, Seq<char>>),
    Fetched(Result<Seq<Option<Seq<u8>>>, Seq<char>>),
    TokenRead(Result<Option<(Seq<u8>, Option<u64>)>, Seq<char>>),
    Swapped(Result<bool, Seq<char>>),
}

pub open spec fn bytes_view(o: Option<Vec<u8>>) -> Option<Seq<u8>> {
    match o {
        Some(b) => Some(b@),
        None => None,
    }
}

impl View for Event {
    type V = EventView;

    open spec fn view(&self) -> EventView {
        match self {
            Event::Connected => EventView::Connected,
            Event::ConnectFailed(m) => EventView::ConnectFailed(m@),
            Event::Inserted(Ok(b)) => EventView::Inserted(Ok(*b)),
            Event::Inserted(Err(m)) => EventView::Inserted(Err(m@)),
            Event::Fetched(Ok(v)) => EventView::Fetched(Ok(v@.map_values(|o: Option<Vec<u8>>| bytes_view(o)))),
            Event::Fetched(Err(m)) => EventView::Fetched(Err(m@)),
            Event::TokenRead(Ok(Some((b, t)))) => EventView::TokenRead(Ok(Some((b@, *t)))),
            Event::TokenRead(Ok(None)) => EventView::TokenRead(Ok(None)),
            Event::TokenRead(Err(m)) => EventView::TokenRead(Err(m@)),
            Event::Swapped(Ok(b)) => EventView::Swapped(Ok(*b)),
            Event::Swapped(Err(m)) => EventView::Swapped(Err(m@)),
        }
    }
}

/// A rate limiter bound to one cache endpoint.
pub struct Limiter {
    endpoint: String,
    connected: bool,
    last_error: Option<LimitError>,
    phase: Phase,
}

pub struct LimiterView {
    pub endpoint: Seq<char>,
    pub connected: bool,
    pub last_error: Option<ErrorView>,
    pub phase: PhaseView,
}

impl View for Limiter {
    type V = LimiterView;

    closed spec fn view(&self) -> LimiterView {
        LimiterView {
            endpoint: self.endpoint@,
            connected: self.connected,
            last_error: match self.last_error {
                Some(e) => Some(e@),
                None => None,
            },
            phase: self.phase@,
        }
    }
}

/// The count that an entry of a batch fetch contributes: absent entries
/// count as zero.
pub open spec fn slot_count(o: Option<Seq<u8>>) -> u32 {
    match o {
        Some(b) => bucket_value(b) as u32,
        None => 0,
    }
}

/// The current bucket's count, as read with its token.
pub open spec fn read_count(read: Option<(Seq<u8>, Option<u64>)>) -> nat {
    match read {
        Some((b, _)) => bucket_value(b),
        None => 0,
    }
}

pub open spec fn insert_action(c: CheckView) -> ActionView {
    ActionView::Insert { key: current_key(c), value: 0, ttl: c.ttl }
}

pub open spec fn with_phase(l: LimiterView, p: PhaseView) -> LimiterView {
    LimiterView { endpoint: l.endpoint, connected: l.connected, last_error: l.last_error, phase: p }
}

/// A check that fails: the error is recorded and the connection dropped.
pub open spec fn failed(l: LimiterView, e: ErrorView) -> (LimiterView, ActionView) {
    (
        LimiterView { endpoint: l.endpoint, connected: false, last_error: Some(e), phase: PhaseView::Idle },
        ActionView::Done(Err(e)),
    )
}

/// A check that decides: the last error is cleared.
pub open spec fn decided(l: LimiterView, d: Decision) -> (LimiterView, ActionView) {
    (
        LimiterView { endpoint: l.endpoint, connected: l.connected, last_error: None, phase: PhaseView::Idle },
        ActionView::Done(Ok(d)),
    )
}

/// The start of a check: connect first if no connection is live, then
/// create the current bucket at zero if it is absent.
pub open spec fn begin_spec(l: LimiterView, c: CheckView) -> (LimiterView, ActionView) {
    if l.connected {
        (with_phase(l, PhaseView::Inserting(c)), insert_action(c))
    } else {
        (with_phase(l, PhaseView::Connecting(c)), ActionView::Connect(l.endpoint))
    }
}

/// The step of a check on an event.
pub open spec fn step_spec(l: LimiterView, ev: EventView) -> (LimiterView, ActionView) {
    match l.phase {
        PhaseView::Connecting(c) => match ev {
            EventView::Connected => (
                LimiterView {
                    endpoint: l.endpoint,
                    connected: true,
                    last_error: l.last_error,
                    phase: PhaseView::Inserting(c),
                },
                insert_action(c),
            ),
            EventView::ConnectFailed(m) => failed(l, ErrorView::Connection(m)),
            _ => failed(l, ErrorView::OutOfOrder),
        },
        PhaseView::Inserting(c) => match ev {
            EventView::Inserted(Ok(_)) => (
                with_phase(l, PhaseView::Fetching(c)),
                ActionView::BatchGet(window_keys_of(c.prefix, c.now as nat, c.rate_seconds as nat)),
            ),
            EventView::Inserted(Err(m)) => failed(l, ErrorView::Protocol(m)),
            _ => failed(l, ErrorView::OutOfOrder),
        },
        PhaseView::Fetching(c) => match ev {
            EventView::Fetched(Ok(v)) => (
                with_phase(l, PhaseView::Reading(c, v.map_values(|o: Option<Seq<u8>>| slot_count(o)))),
                ActionView::GetWithToken(current_key(c)),
            ),
            EventView::Fetched(Err(m)) => failed(l, ErrorView::Protocol(m)),
            _ => failed(l, ErrorView::OutOfOrder),
        },
        PhaseView::Reading(c, others) => match ev {
            EventView::TokenRead(Ok(read)) => {
                let current = read_count(read);
                let d = decision_of(current, c.size as nat, others, c.rate_max as nat);
                if d == Decision::Rejected {
                    decided(l, Decision::Rejected)
                } else {
                    match read {
                        Some((_, Some(t))) => (
                            with_phase(l, PhaseView::Writing(c)),
                            ActionView::CompareAndSwap {
                                key: current_key(c),
                                value: (current + c.size) as u32,
                                ttl: c.ttl,
                                token: t,
                            },
                        ),
                        _ => decided(l, Decision::Admitted),
                    }
                }
            },
            EventView::TokenRead(Err(m)) => failed(l, ErrorView::Protocol(m)),
            _ => failed(l, ErrorView::OutOfOrder),
        },
        PhaseView::Writing(_) => match ev {
            EventView::Swapped(Ok(_)) => decided(l, Decision::Admitted),
            EventView::Swapped(Err(m)) => failed(l, ErrorView::Protocol(m)),
            _ => failed(l, ErrorView::OutOfOrder),
        },
        PhaseView::Idle => failed(l, ErrorView::OutOfOrder),
    }
}

fn slot_counts(v: &Vec<Option<Vec<u8>>>) -> (r: Vec<u32>)
    ensures
        r@ == v@.map_values(|o: Option<Vec<u8>>| bytes_view(o)).map_values(|o: Option<Seq<u8>>| slot_count(o)),
{
    let mut r: Vec<u32> = Vec::new();
    let mut i: usize = 0;
    while i < v.len()
        invariant
            i <= v@.len(),
            r@.len() == i,
            forall|j: int| 0 <= j < i ==> #[trigger] r@[j] == slot_count(bytes_view(v@[j])),
        decreases v@.len() - i,
    {
        let n: u32 = match &v[i] {
            Some(b) => decode_count(b.as_slice()),
            None => 0,
        };
        r.push(n);
        i = i + 1;
    }
    assert(r@ =~= v@.map_values(|o: Option<Vec<u8>>| bytes_view(o)).map_values(|o: Option<Seq<u8>>| slot_count(o)));
    r
}

impl Limiter {
    /// A limiter for the cache at `endpoint`; it connects on its first check.
    pub fn new(endpoint: &str) -> (r: Result<Limiter, LimitError>)
        ensures
            match r {
                Ok(l) => parsed_url(endpoint@) == Some(l@.endpoint) && !l@.connected
                    && l@.last_error is None && l@.phase is Idle,
                Err(e) => parsed_url(endpoint@) is None && e@ == ErrorView::InvalidEndpoint,
            },
    {
        match parse_url(endpoint) {
            Ok(u) => Ok(Limiter { endpoint: u, connected: false, last_error: None, phase: Phase::Idle }),
            Err(_) => Err(LimitError::InvalidEndpoint),
        }
    }

    /// The address of the cache.
    pub fn endpoint(&self) -> (r: &String)
        ensures
            r@ == self@.endpoint,
    {
        &self.endpoint
    }

    /// Whether a connection is believed live.
    pub fn is_connected(&self) -> (r: bool)
        ensures
            r == self@.connected,
    {
        self.connected
    }

    /// Whether no check is in progress.
    pub fn is_idle(&self) -> (r: bool)
        ensures
            r == (self@.phase is Idle),
    {
        match self.phase {
            Phase::Idle => true,
            _ => false,
        }
    }

    /// The error of the last check, unless a later check decided.
    pub fn last_error(&self) -> (r: Option<LimitError>)
        ensures
            match r {
                Some(e) => self@.last_error == Some(e@),
                None => self@.last_error is None,
            },
    {
        match &self.last_error {
            Some(e) => Some(e.duplicate()),
            None => None,
        }
    }

    fn fail(&mut self, e: LimitError) -> (r: Action)
        ensures
            (final(self)@, r@) == failed(old(self)@, e@),
    {
        let copy = e.duplicate();
        self.connected = false;
        self.last_error = Some(copy);
        self.phase = Phase::Idle;
        Action::Done(Err(e))
    }

    fn decide_with(&mut self, d: Decision) -> (r: Action)
        ensures
            (final(self)@, r@) == decided(old(self)@, d),
    {
        self.last_error = None;
        self.phase = Phase::Idle;
        Action::Done(Ok(d))
    }

    /// Starts a check of whether `size` more units fit under `rate_max` in
    /// the window of `rate_seconds` seconds that ends at the Unix second
    /// `now`, for the quota named `prefix`. A check already in progress is
    /// abandoned.
    pub fn begin_check(&mut self, prefix: &str, size: u32, rate_max: u32, rate_seconds: u32, now: u64) -> (r: Action)
        requires
            rate_seconds < u32::MAX,
        ensures
            (final(self)@, r@) == begin_spec(
                old(self)@,
                CheckView { prefix: prefix@, size, rate_max, rate_seconds, now, ttl: (rate_seconds + 1) as u32 },
            ),
    {
        let c = Check { prefix: String::from_str(prefix), size, rate_max, rate_seconds, now, ttl: rate_seconds + 1 };
        if self.connected {
            let key = bucket_key(prefix, now);
            let ttl = c.ttl;
            self.phase = Phase::Inserting(c);
            Action::Insert { key, value: 0, ttl }
        } else {
            self.phase = Phase::Connecting(c);
            Action::Connect(self.endpoint.clone())
        }
    }

    /// Advances the check in progress on what the cache answered.
    pub fn step(&mut self, ev: Event) -> (r: Action)
        ensures
            (final(self)@, r@) == step_spec(old(self)@, ev@),
    {
        let mut phase = Phase::Idle;
        core::mem::swap(&mut self.phase, &mut phase);
        match phase {
            Phase::Connecting(c) => match ev {
                Event::Connected => {
                    let key = bucket_key(c.prefix.as_str(), c.now);
                    let ttl = c.ttl;
                    self.connected = true;
                    self.phase = Phase::Inserting(c);
                    Action::Insert { key, value: 0, ttl }
                },
                Event::ConnectFailed(m) => self.fail(LimitError::Connection(m)),
                _ => self.fail(LimitError::OutOfOrder),
            },
            Phase::Inserting(c) => match ev {
                Event::Inserted(Ok(_)) => {
                    let keys = window_keys(c.prefix.as_str(), c.now, c.rate_seconds);
                    self.phase = Phase::Fetching(c);
                    let a = Action::BatchGet(keys);
                    assert(a@ == ActionView::BatchGet(window_keys_of(c.prefix@, c.now as nat, c.rate_seconds as nat))) by {
                        assert(keys@.map_values(|k: String| k@) =~= window_keys_of(c.prefix@, c.now as nat, c.rate_seconds as nat));
                    }
                    a
                },
                Event::Inserted(Err(m)) => self.fail(LimitError::Protocol(m)),
                _ => self.fail(LimitError::OutOfOrder),
            },
            Phase::Fetching(c) => match ev {
                Event::Fetched(Ok(v)) => {
                    let others = slot_counts(&v);
                    let key = bucket_key(c.prefix.as_str(), c.now);
                    self.phase = Phase::Reading(c, others);
                    Action::GetWithToken(key)
                },
                Event::Fetched(Err(m)) => self.fail(LimitError::Protocol(m)),
                _ => self.fail(LimitError::OutOfOrder),
            },
            Phase::Reading(c, others) => match ev {
                Event::TokenRead(Ok(read)) => {
                    let (current, token): (u32, Option<u64>) = match read {
                        Some((b, t)) => (decode_count(b.as_slice()), t),
                        None => (0, None),
                    };
                    match decide(current, c.size, &others, c.rate_max) {
                        Decision::Rejected => self.decide_with(Decision::Rejected),
                        Decision::Admitted => match token {
                            Some(t) => {
                                let key = bucket_key(c.prefix.as_str(), c.now);
                                let value = current + c.size;
                                let ttl = c.ttl;
                                self.phase = Phase::Writing(c);
                                Action::CompareAndSwap { key, value, ttl, token: t }
                            },
                            None => self.decide_with(Decision::Admitted),
                        },
                    }
                },
                Event::TokenRead(Err(m)) => self.fail(LimitError::Protocol(m)),
                _ => self.fail(LimitError::OutOfOrder),
            },
            Phase::Writing(_) => match ev {
                Event::Swapped(Ok(_)) => self.decide_with(Decision::Admitted),
                Event::Swapped(Err(m)) => self.fail(LimitError::Protocol(m)),
                _ => self.fail(LimitError::OutOfOrder),
            },
            Phase::Idle => self.fail(LimitError::OutOfOrder),
        }
    }
}

} // verus!
