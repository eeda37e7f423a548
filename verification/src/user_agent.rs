//! User agents that requests take turns with.
use vstd::prelude::*;
use vstd::utf8::encode_utf8;

use crate::agents::{can_list, load_builtin_user_agents, BuiltinUserAgentList};
use crate::chance::chosen;
use crate::delay::{Delay, NANOS_PER_SEC};
use crate::error::{SpiderError, SpiderErrorView};
use crate::files::{copy_texts, items_are_what_lines_say, items_or_error, load_items, says_something,
    FileRead, FileReadView};
use crate::headers::{field_name, field_value, is_field_name, is_field_value, is_refused, refused,
    roomy, set_field, user_agent_is_a_name, HEADER_ROOM};
use crate::middleware::{answer_unless_crowded, crowded, MiddlewareAction};
use crate::request::{Request, RequestView};
use crate::slots::{count_slots, distinct, find_slot, held, no_slots, put_slot, slots, SlotTable};
use crate::text::{joined, lowered, texts};
use crate::weburl::maybe_text;

verus! {

/// How user agents take turns.
#[derive(Debug, Clone, Copy, PartialEq, Eq, Structural)]
pub enum UserAgentRotationStrategy {
    /// By chance.
    Random,
    /// One after the other.
    Sequential,
    /// By chance for the first request to a domain, then always the same.
    Sticky,
    /// By chance for the first request to a domain, then the same for a session.
    StickySession,
}

impl Default for UserAgentRotationStrategy {
    fn default() -> (r: Self)
        ensures
            r == UserAgentRotationStrategy::Random,
    {
        UserAgentRotationStrategy::Random
    }
}

/// Where user agents come from.
#[derive(Debug, Clone, PartialEq, Eq)]
pub enum UserAgentSource {
    /// A list of them.
    List(Vec<String>),
    /// The path of a file with them, one to a line.
    File(String),
    /// A list that is known beforehand.
    Builtin(BuiltinUserAgentList),
    /// Nowhere.
    Nowhere,
}

/// Where user agents come from, taken by the text.
pub enum SourceView {
    /// A list of them.
    List(Seq<Seq<char>>),
    /// The path of a file with them, one to a line.
    File(Seq<char>),
    /// A list that is known beforehand.
    Builtin(BuiltinUserAgentList),
    /// Nowhere.
    Nowhere,
}

impl View for UserAgentSource {
    type V = SourceView;

    open spec fn view(&self) -> SourceView {
        match self {
            UserAgentSource::List(list) => SourceView::List(texts(list@)),
            UserAgentSource::File(path) => SourceView::File(path@),
            UserAgentSource::Builtin(list) => SourceView::Builtin(*list),
            UserAgentSource::Nowhere => SourceView::Nowhere,
        }
    }
}

impl Default for UserAgentSource {
    fn default() -> (r: Self)
        ensures
            r@ == SourceView::Builtin(BuiltinUserAgentList::Random),
    {
        UserAgentSource::Builtin(BuiltinUserAgentList::Random)
    }
}

/// A user agent and the header fields that go with it.
#[derive(Debug, Clone)]
pub struct UserAgentProfile {
    /// The user agent.
    pub user_agent: String,
    /// The header fields that are sent with it.
    pub headers: SlotTable<String>,
}

impl From<String> for UserAgentProfile {
    /// A user agent without other header fields.
    fn from(user_agent: String) -> (r: UserAgentProfile)
        ensures
            r.user_agent@ == user_agent@,
            r.headers@ == Map::<Seq<char>, String>::empty(),
    {
        UserAgentProfile { user_agent, headers: SlotTable::new() }
    }
}

impl vstd::std_specs::convert::FromSpecImpl<String> for UserAgentProfile {
    open spec fn obeys_from_spec() -> bool {
        false
    }

    open spec fn from_spec(user_agent: String) -> UserAgentProfile {
        arbitrary()
    }
}

impl<'a> From<&'a str> for UserAgentProfile {
    /// A user agent without other header fields.
    fn from(user_agent: &'a str) -> (r: UserAgentProfile)
        ensures
            r.user_agent@ == user_agent@,
            r.headers@ == Map::<Seq<char>, String>::empty(),
    {
        UserAgentProfile { user_agent: user_agent.to_owned(), headers: SlotTable::new() }
    }
}

impl<'a> vstd::std_specs::convert::FromSpecImpl<&'a str> for UserAgentProfile {
    open spec fn obeys_from_spec() -> bool {
        false
    }

    open spec fn from_spec(user_agent: &'a str) -> UserAgentProfile {
        arbitrary()
    }
}

/// What came of reading the files of sources, by their paths.
pub type Reads = Map<Seq<char>, FileReadView>;

/// What came of reading a file; one that was not tried is missing.
pub open spec fn read_of(reads: Reads, path: Seq<char>) -> FileReadView {
    if reads.contains_key(path) {
        reads[path]
    } else {
        FileReadView::Missing
    }
}

/// The error where the file of a source cannot be read.
pub open spec fn load_error(source: SourceView, reads: Reads) -> Option<SpiderErrorView> {
    match source {
        SourceView::File(path) => match items_of_file(reads, path) {
            Ok(_) => None,
            Err(e) => Some(e),
        },
        _ => None,
    }
}

/// The user agents of a file, or the error where it cannot be read.
pub open spec fn items_of_file(reads: Reads, path: Seq<char>) -> Result<
    Seq<Seq<char>>,
    SpiderErrorView,
> {
    items_or_error(read_of(reads, path), "User-agent file not found: "@, path)
}

/// Whether user agents can be those of a source that can be loaded.
pub open spec fn can_load(source: SourceView, reads: Reads, agents: Seq<Seq<char>>) -> bool {
    match source {
        SourceView::List(list) => agents == list,
        SourceView::File(path) => items_of_file(reads, path) is Ok && agents == items_of_file(
            reads,
            path,
        )->Ok_0,
        SourceView::Builtin(list) => can_list(list, agents),
        SourceView::Nowhere => agents == Seq::<Seq<char>>::empty(),
    }
}

/// Files that were read, taken by their texts.
pub open spec fn reads_view(reads: Map<Seq<char>, FileRead>) -> Reads {
    reads.map_values(|r: FileRead| r@)
}

/// Builds a `UserAgentMiddleware`.
#[derive(Debug, Clone)]
pub struct UserAgentMiddlewareBuilder {
    source: UserAgentSource,
    strategy: UserAgentRotationStrategy,
    fallback_user_agent: Option<String>,
    per_domain_source: SlotTable<UserAgentSource>,
    per_domain_strategy: SlotTable<UserAgentRotationStrategy>,
    session_duration: Option<Delay>,
}

/// What a builder is set to.
#[verifier::ext_equal]
pub struct AgentSettings {
    /// Where user agents come from.
    pub source: SourceView,
    /// How they take turns.
    pub strategy: UserAgentRotationStrategy,
    /// The user agent where there is no other.
    pub fallback: Option<Seq<char>>,
    /// Where the user agents for some domains come from.
    pub domain_sources: Map<Seq<char>, SourceView>,
    /// How user agents take turns for some domains.
    pub domain_strategies: Map<Seq<char>, UserAgentRotationStrategy>,
    /// How long a session is, in nanoseconds.
    pub session_duration: Option<nat>,
}

/// Sources, taken by their texts.
pub open spec fn sources_view(sources: Map<Seq<char>, UserAgentSource>) -> Map<
    Seq<char>,
    SourceView,
> {
    sources.map_values(|s: UserAgentSource| s@)
}

impl View for UserAgentMiddlewareBuilder {
    type V = AgentSettings;

    closed spec fn view(&self) -> AgentSettings {
        AgentSettings {
            source: self.source@,
            strategy: self.strategy,
            fallback: maybe_text(self.fallback_user_agent),
            domain_sources: sources_view(self.per_domain_source@),
            domain_strategies: self.per_domain_strategy@,
            session_duration: match self.session_duration {
                Some(d) => Some(d@),
                None => None,
            },
        }
    }
}

/// The usual settings: all user agents that are known, by chance.
pub open spec fn default_settings() -> AgentSettings {
    AgentSettings {
        source: SourceView::Builtin(BuiltinUserAgentList::Random),
        strategy: UserAgentRotationStrategy::Random,
        fallback: None,
        domain_sources: Map::empty(),
        domain_strategies: Map::empty(),
        session_duration: None,
    }
}

impl Default for UserAgentMiddlewareBuilder {
    fn default() -> (r: Self)
        ensures
            r@ == default_settings(),
    {
        let r = UserAgentMiddlewareBuilder {
            source: UserAgentSource::default(),
            strategy: UserAgentRotationStrategy::Random,
            fallback_user_agent: None,
            per_domain_source: SlotTable::new(),
            per_domain_strategy: SlotTable::new(),
            session_duration: None,
        };
        assert(r@.domain_sources =~= Map::empty());
        r
    }
}

/// How long a session is where nothing else is set, in seconds.
pub const SESSION_SECS: u64 = 300;

/// The user agents, how they take turns, and what was chosen so far.
#[verifier::ext_equal]
pub struct AgentState {
    /// How the user agents take turns.
    pub strategy: UserAgentRotationStrategy,
    /// The user agent where there is no other.
    pub fallback: Option<Seq<char>>,
    /// The user agents.
    pub default_pool: Seq<Seq<char>>,
    /// The user agents for some domains.
    pub domain_pools: Map<Seq<char>, Seq<Seq<char>>>,
    /// How user agents take turns for some domains.
    pub domain_strategies: Map<Seq<char>, UserAgentRotationStrategy>,
    /// The user agents that stay with a domain.
    pub sticky: Map<Seq<char>, Seq<char>>,
    /// The user agents that were last chosen for a session with a domain, and when, in
    /// nanoseconds.
    pub sessions: Map<Seq<char>, (Seq<char>, nat)>,
    /// How long a session is, in nanoseconds.
    pub session_life: nat,
    /// How many turns there were.
    pub turns: usize,
}

/// The state of a new middleware with the user agents that were loaded.
pub open spec fn new_state(
    settings: AgentSettings,
    default_pool: Seq<Seq<char>>,
    domain_pools: Map<Seq<char>, Seq<Seq<char>>>,
) -> AgentState {
    AgentState {
        strategy: settings.strategy,
        fallback: settings.fallback,
        default_pool,
        domain_pools,
        domain_strategies: settings.domain_strategies,
        sticky: Map::empty(),
        sessions: Map::empty(),
        session_life: match settings.session_duration {
            Some(d) => d,
            None => (SESSION_SECS * NANOS_PER_SEC) as nat,
        },
        turns: 0,
    }
}

/// Whether a state is that of a new middleware: each pool has the user agents of its source,
/// and each domain with a source of its own has a pool of its own.
pub open spec fn is_built(settings: AgentSettings, reads: Reads, state: AgentState) -> bool {
    &&& state == new_state(settings, state.default_pool, state.domain_pools)
    &&& can_load(settings.source, reads, state.default_pool)
    &&& state.domain_pools.dom() == settings.domain_sources.dom()
    &&& forall|d: Seq<char>| #[trigger]
        state.domain_pools.contains_key(d) ==> can_load(
            settings.domain_sources[d],
            reads,
            state.domain_pools[d],
        )
}

/// Whether the sources of all domains can be loaded.
pub open spec fn domains_load(settings: AgentSettings, reads: Reads) -> bool {
    forall|domain: Seq<char>| #[trigger]
        settings.domain_sources.contains_key(domain) ==> load_error(
            settings.domain_sources[domain],
            reads,
        ) is None
}

/// Whether an error is that of a domain's source.
pub open spec fn is_domain_error(
    settings: AgentSettings,
    reads: Reads,
    error: SpiderErrorView,
) -> bool {
    exists|domain: Seq<char>| #[trigger]
        settings.domain_sources.contains_key(domain) && load_error(
            settings.domain_sources[domain],
            reads,
        ) == Some(error)
}

/// Whether a path is that of a file that a source is read from.
pub open spec fn is_needed(settings: AgentSettings, path: Seq<char>) -> bool {
    ||| settings.source == SourceView::File(path)
    ||| exists|domain: Seq<char>| #[trigger]
        settings.domain_sources.contains_key(domain) && settings.domain_sources[domain]
            == SourceView::File(path)
}

/// A user agent that was chosen for a session, and when.
#[derive(Debug, Clone, Copy)]
struct Session {
    agent: usize,
    since: Delay,
}

/// Sends user agents with requests.
pub struct UserAgentMiddleware {
    strategy: UserAgentRotationStrategy,
    fallback_user_agent: Option<String>,
    agents: Vec<UserAgentProfile>,
    pools: Vec<Vec<usize>>,
    domain_pools: SlotTable<usize>,
    sticky_cache: dashmap::DashMap<String, usize>,
    sessions: SlotTable<Session>,
    session_life: Delay,
    per_domain_strategy: SlotTable<UserAgentRotationStrategy>,
    current_index: usize,
}

/// The user agents that places in a list stand for.
spec fn pool_texts(agents: Seq<UserAgentProfile>, pool: Seq<usize>) -> Seq<Seq<char>> {
    pool.map_values(|i: usize| agents[i as int].user_agent@)
}

impl View for UserAgentMiddleware {
    type V = AgentState;

    closed spec fn view(&self) -> AgentState {
        AgentState {
            strategy: self.strategy,
            fallback: maybe_text(self.fallback_user_agent),
            default_pool: pool_texts(self.agents@, self.pools@[0]@),
            domain_pools: self.domain_pools@.map_values(
                |j: usize| pool_texts(self.agents@, self.pools@[j as int]@),
            ),
            domain_strategies: self.per_domain_strategy@,
            sticky: slots(self.sticky_cache).map_values(
                |i: usize| self.agents@[i as int].user_agent@,
            ),
            sessions: self.sessions@.map_values(
                |s: Session| (self.agents@[s.agent as int].user_agent@, s.since@),
            ),
            session_life: self.session_life@,
            turns: self.current_index,
        }
    }
}

/// Whether the places of all pools are places of a list.
spec fn pools_fit(agents: Seq<UserAgentProfile>, pools: Seq<Vec<usize>>) -> bool {
    forall|j: int, k: int|
        #![trigger pools[j]@[k]]
        0 <= j < pools.len() && 0 <= k < pools[j]@.len() ==> pools[j]@[k] < agents.len()
}

/// Whether no user agent of a list has other header fields.
spec fn all_plain(agents: Seq<UserAgentProfile>) -> bool {
    forall|i: int|
        0 <= i < agents.len() ==> (#[trigger] agents[i]).headers@ == Map::<
            Seq<char>,
            String,
        >::empty()
}

/// The name under which a domain's choices are kept.
pub open spec fn domain_key(domain: Option<Seq<char>>) -> Seq<char> {
    match domain {
        Some(d) => d,
        None => Seq::empty(),
    }
}

/// How user agents take turns for a domain.
pub open spec fn strategy_for(
    state: AgentState,
    domain: Option<Seq<char>>,
) -> UserAgentRotationStrategy {
    if state.domain_strategies.contains_key(domain_key(domain)) {
        state.domain_strategies[domain_key(domain)]
    } else {
        state.strategy
    }
}

/// The user agents that are chosen from: those of the domain's own source where it has one.
pub open spec fn pool_for(state: AgentState, domain: Option<Seq<char>>) -> Seq<Seq<char>> {
    if domain is Some && state.domain_pools.contains_key(domain->0) {
        state.domain_pools[domain->0]
    } else {
        state.default_pool
    }
}

/// Whether a session that began at one time still lasts at another.
pub open spec fn lasts(since: nat, life: nat, now: nat) -> bool {
    if since <= now {
        now - since < life
    } else {
        0 < life
    }
}

/// The user agent that was chosen before and still stands.
pub open spec fn kept_for(
    state: AgentState,
    domain: Option<Seq<char>>,
    now: nat,
) -> Option<Seq<char>> {
    let key = domain_key(domain);
    match strategy_for(state, domain) {
        UserAgentRotationStrategy::Sticky => if state.sticky.contains_key(key) {
            Some(state.sticky[key])
        } else {
            None
        },
        UserAgentRotationStrategy::StickySession => if state.sessions.contains_key(key) && lasts(
            state.sessions[key].1,
            state.session_life,
            now,
        ) {
            Some(state.sessions[key].0)
        } else {
            None
        },
        _ => None,
    }
}

/// The state once the next user agent has its turn.
pub open spec fn next_turn(state: AgentState) -> AgentState {
    AgentState {
        turns: if state.turns == usize::MAX {
            0
        } else {
            (state.turns + 1) as usize
        },
        ..state
    }
}

/// Whether a user agent can be drawn for a domain: one of those that are chosen from, and
/// none where there is nothing to choose from.
pub open spec fn can_draw(
    state: AgentState,
    domain: Option<Seq<char>>,
    drawn: Option<Seq<char>>,
) -> bool {
    match drawn {
        Some(agent) => pool_for(state, domain).contains(agent),
        None => pool_for(state, domain).len() == 0,
    }
}

/// The user agent for a request to a domain where one was drawn: the one that was chosen
/// before and still stands; else the fallback where there is nothing to choose from; else
/// the next in turn or the one that was drawn.
pub open spec fn choice_for(
    state: AgentState,
    domain: Option<Seq<char>>,
    now: nat,
    drawn: Option<Seq<char>>,
) -> Option<Seq<char>> {
    let pool = pool_for(state, domain);
    if kept_for(state, domain, now) is Some {
        kept_for(state, domain, now)
    } else if pool.len() == 0 {
        state.fallback
    } else if strategy_for(state, domain) == UserAgentRotationStrategy::Sequential {
        Some(pool[state.turns as int % pool.len() as int])
    } else {
        drawn
    }
}

/// The state after a request to a domain where a user agent was drawn: a turn was taken, or
/// what was drawn is kept where choices are. A choice that still stands changes nothing.
pub open spec fn after_choice(
    state: AgentState,
    domain: Option<Seq<char>>,
    now: nat,
    drawn: Option<Seq<char>>,
) -> AgentState {
    let key = domain_key(domain);
    if kept_for(state, domain, now) is Some || pool_for(state, domain).len() == 0 {
        state
    } else {
        match strategy_for(state, domain) {
            UserAgentRotationStrategy::Random => state,
            UserAgentRotationStrategy::Sequential => next_turn(state),
            UserAgentRotationStrategy::Sticky => AgentState {
                sticky: state.sticky.insert(key, drawn->0),
                ..state
            },
            UserAgentRotationStrategy::StickySession => AgentState {
                sessions: state.sessions.insert(key, (drawn->0, now)),
                ..state
            },
        }
    }
}

/// Whether a choice and the state after it can come of a request to a domain.
pub open spec fn can_choose(
    before: AgentState,
    domain: Option<Seq<char>>,
    now: nat,
    choice: Option<Seq<char>>,
    after: AgentState,
) -> bool {
    exists|drawn: Option<Seq<char>>| #[trigger]
        can_draw(before, domain, drawn) && choice == choice_for(before, domain, now, drawn)
            && after == after_choice(before, domain, now, drawn)
}

/// Whether chance finds the user agent for a request to a domain: nothing that was chosen
/// before still stands, there are some to choose from, and they do not take turns.
pub open spec fn is_left_to_chance(
    state: AgentState,
    domain: Option<Seq<char>>,
    now: nat,
) -> bool {
    &&& kept_for(state, domain, now) is None
    &&& pool_for(state, domain).len() > 0
    &&& strategy_for(state, domain) != UserAgentRotationStrategy::Sequential
}

/// How a user agent is found.
#[derive(Debug, Clone, Copy, PartialEq, Eq, Structural)]
pub enum Decision {
    /// The one that was chosen before.
    Kept,
    /// The fallback.
    Fallback,
    /// The one at this place.
    Turn(usize),
    /// One by chance.
    Draw,
    /// One by chance, to be kept.
    DrawAndKeep,
}

/// How a user agent is found, where one was chosen before or not, from so many, after so
/// many turns.
pub open spec fn decision_for(
    strategy: UserAgentRotationStrategy,
    kept: bool,
    pool_len: nat,
    turns: usize,
) -> Decision {
    let keeps = strategy == UserAgentRotationStrategy::Sticky || strategy
        == UserAgentRotationStrategy::StickySession;
    if keeps && kept {
        Decision::Kept
    } else if pool_len == 0 {
        Decision::Fallback
    } else if strategy == UserAgentRotationStrategy::Sequential {
        Decision::Turn((turns as int % pool_len as int) as usize)
    } else if keeps {
        Decision::DrawAndKeep
    } else {
        Decision::Draw
    }
}

/// How a user agent is found.
pub fn decide(
    strategy: UserAgentRotationStrategy,
    kept: bool,
    pool_len: usize,
    turns: usize,
) -> (r: Decision)
    ensures
        r == decision_for(strategy, kept, pool_len as nat, turns),
{
    match strategy {
        UserAgentRotationStrategy::Random => if pool_len == 0 {
            Decision::Fallback
        } else {
            Decision::Draw
        },
        UserAgentRotationStrategy::Sequential => if pool_len == 0 {
            Decision::Fallback
        } else {
            Decision::Turn(turns % pool_len)
        },
        UserAgentRotationStrategy::Sticky | UserAgentRotationStrategy::StickySession => if kept {
            Decision::Kept
        } else if pool_len == 0 {
            Decision::Fallback
        } else {
            Decision::DrawAndKeep
        },
    }
}

/// A request with a user agent, or the error where the field cannot hold it.
pub open spec fn with_agent(request: RequestView, agent: Seq<char>) -> Result<
    RequestView,
    SpiderErrorView,
> {
    if is_field_value(agent) {
        Ok(
            RequestView {
                headers: request.headers.insert("user-agent"@, seq![encode_utf8(agent)]),
                ..request
            },
        )
    } else {
        Err(
            SpiderErrorView::HeaderValueError(
                "Invalid User-Agent string '"@ + agent + "': failed to parse header value"@,
            ),
        )
    }
}

/// A request with one more header field, or the error where it cannot be one.
pub open spec fn with_field(request: RequestView, name: Seq<char>, text: Seq<char>) -> Result<
    RequestView,
    SpiderErrorView,
> {
    if !is_field_name(name) {
        Err(
            SpiderErrorView::HeaderValueError(
                "Invalid header name: invalid HTTP header name"@,
            ),
        )
    } else if !is_field_value(text) {
        Err(
            SpiderErrorView::HeaderValueError(
                "Invalid header value for "@ + name + ": failed to parse header value"@,
            ),
        )
    } else {
        Ok(
            RequestView {
                headers: request.headers.insert(lowered(name), seq![encode_utf8(text)]),
                ..request
            },
        )
    }
}

/// A request with a user agent and header fields, set in turn; the first that cannot be
/// set is the error.
pub open spec fn with_profile(
    request: RequestView,
    agent: Seq<char>,
    fields: Seq<(String, String)>,
) -> Result<RequestView, SpiderErrorView>
    decreases fields.len(),
{
    if fields.len() == 0 {
        with_agent(request, agent)
    } else {
        match with_profile(request, agent, fields.drop_last()) {
            Ok(q) => with_field(q, fields.last().0@, fields.last().1@),
            Err(e) => Err(e),
        }
    }
}

proof fn errors_stay(
    request: RequestView,
    agent: Seq<char>,
    fields: Seq<(String, String)>,
    i: int,
)
    requires
        0 <= i <= fields.len(),
        with_profile(request, agent, fields.take(i)) is Err,
    ensures
        with_profile(request, agent, fields) == with_profile(request, agent, fields.take(i)),
    decreases fields.len() - i,
{
    if i < fields.len() {
        assert(fields.take(i + 1).drop_last() =~= fields.take(i));
        errors_stay(request, agent, fields, i + 1);
    } else {
        assert(fields.take(i) =~= fields);
    }
}

/// Whether a request always takes a user agent and so many other header fields.
pub open spec fn has_room_for(request: RequestView, fields: nat) -> bool {
    request.headers.dom().finite() && request.headers.dom().len() + fields <= HEADER_ROOM
}

/// Whether the header map of a request could not take a profile when it was asked to: not the
/// user agent, or not one of the other header fields behind those before it.
pub open spec fn is_profile_refused(
    request: RequestView,
    agent: Seq<char>,
    fields: Seq<(String, String)>,
) -> bool {
    ||| is_refused(request.headers, "user-agent"@, agent)
    ||| exists|i: int|
        0 <= i < fields.len() && is_refused(
            with_profile(request, agent, fields.take(i))->Ok_0.headers,
            (#[trigger] fields[i]).0@,
            fields[i].1@,
        )
}

/// Whether a list holds the header fields of a profile, each once and in some order.
pub open spec fn are_fields_of(profile: UserAgentProfile, fields: Seq<(String, String)>) -> bool {
    distinct(fields) && held(fields) == profile.headers@
}

/// A request with a user agent and the header fields that go with it, set in some order.
pub fn apply_profile(request: Request, profile: &UserAgentProfile) -> (r: Result<
    MiddlewareAction<Request>,
    SpiderError,
>)
    ensures
        exists|fields: Seq<(String, String)>| #[trigger]
            are_fields_of(*profile, fields) && answer_unless_crowded(
                r,
                with_profile(request@, profile.user_agent@, fields),
                is_field_value(profile.user_agent@) && !has_room_for(request@, fields.len())
                    && is_profile_refused(request@, profile.user_agent@, fields),
            ),
{
    let ghost start = request@;
    let mut out = request;
    let agent = profile.user_agent.as_str();
    let fields = profile.headers.entries();
    let ghost all = fields@;
    assert(are_fields_of(*profile, all));
    proof {
        user_agent_is_a_name();
        assert(all.take(0) =~= Seq::empty());
        fields_are_few(all);
    }
    if !field_value(agent) {
        proof {
            errors_stay(start, agent@, all, 0);
        }
        let head = joined("Invalid User-Agent string '", agent);
        return Err(
            SpiderError::HeaderValueError(
                joined(head.as_str(), "': failed to parse header value"),
            ),
        );
    }
    let ghost before = out.headers;
    let set = set_field(out.headers, "user-agent", agent);
    out.headers = set.0;
    if !set.1 {
        proof {
            refused(before, "user-agent", agent, set.0);
        }
        return Err(crowded());
    }
    let mut i: usize = 0;
    while i < fields.len()
        invariant
            i <= fields.len(),
            fields@ == all,
            start == request@,
            has_room_for(start, all.len()) ==> out@.headers.dom().finite()
                && out@.headers.dom().len() <= start.headers.dom().len() + 1 + i,
            with_profile(start, agent@, all.take(i as int)) is Ok,
            with_profile(start, agent@, all.take(i as int))->Ok_0 == out@,
            are_fields_of(*profile, all),
            agent@ == profile.user_agent@,
            is_field_value(agent@),
        decreases fields.len() - i,
    {
        proof {
            assert(all.take(i + 1).drop_last() =~= all.take(i as int));
            assert(all.take(i + 1).last() == all[i as int]);
        }
        let name = fields[i].0.as_str();
        let text = fields[i].1.as_str();
        if !field_name(name) {
            proof {
                errors_stay(start, agent@, all, i + 1);
            }
            return Err(
                SpiderError::HeaderValueError(
                    "Invalid header name: invalid HTTP header name".to_owned(),
                ),
            );
        }
        if !field_value(text) {
            proof {
                errors_stay(start, agent@, all, i + 1);
            }
            let head = joined("Invalid header value for ", name);
            return Err(
                SpiderError::HeaderValueError(
                    joined(head.as_str(), ": failed to parse header value"),
                ),
            );
        }
        let ghost before = out.headers;
        let set = set_field(out.headers, name, text);
        out.headers = set.0;
        if !set.1 {
            proof {
                refused(before, name, text, set.0);
                assert(is_refused(
                    with_profile(start, agent@, all.take(i as int))->Ok_0.headers,
                    all[i as int].0@,
                    all[i as int].1@,
                ));
            }
            return Err(crowded());
        }
        i += 1;
    }
    assert(all.take(i as int) =~= all);
    Ok(MiddlewareAction::Continue(out))
}

proof fn fields_are_few(fields: Seq<(String, String)>)
    requires
        distinct(fields),
    ensures
        held(fields).dom().finite(),
        held(fields).dom().len() == fields.len(),
    decreases fields.len(),
{
    if fields.len() > 0 {
        let front = fields.drop_last();
        assert(distinct(front)) by {
            assert forall|a: int, b: int| 0 <= a < b < front.len() implies (#[trigger] front[a]).0@
                != (#[trigger] front[b]).0@ by {
                assert(front[a] == fields[a] && front[b] == fields[b]);
            }
        }
        fields_are_few(front);
        assert forall|i: int| 0 <= i < front.len() implies (#[trigger] front[i]).0@
            != fields.last().0@ by {
            assert(front[i] == fields[i]);
            assert(fields[i].0@ != fields[fields.len() - 1].0@);
        }
        crate::slots::held_nowhere_else(front, fields.last().0@);
    }
}

impl UserAgentMiddlewareBuilder {
    /// Sets where user agents come from.
    pub fn source(self, source: UserAgentSource) -> (r: Self)
        ensures
            r@ == (AgentSettings { source: source@, ..self@ }),
    {
        UserAgentMiddlewareBuilder { source, ..self }
    }

    /// Sets how user agents take turns.
    pub fn strategy(self, strategy: UserAgentRotationStrategy) -> (r: Self)
        ensures
            r@ == (AgentSettings { strategy, ..self@ }),
    {
        UserAgentMiddlewareBuilder { strategy, ..self }
    }

    /// Sets how long a session is.
    pub fn session_duration(self, duration: Delay) -> (r: Self)
        ensures
            r@ == (AgentSettings { session_duration: Some(duration@), ..self@ }),
    {
        UserAgentMiddlewareBuilder { session_duration: Some(duration), ..self }
    }

    /// Sets the user agent where there is no other.
    pub fn fallback_user_agent(self, fallback_user_agent: String) -> (r: Self)
        ensures
            r@ == (AgentSettings { fallback: Some(fallback_user_agent@), ..self@ }),
    {
        UserAgentMiddlewareBuilder { fallback_user_agent: Some(fallback_user_agent), ..self }
    }

    /// Sets where the user agents for a domain come from.
    pub fn per_domain_source(self, domain: String, source: UserAgentSource) -> (r: Self)
        ensures
            r@ == (AgentSettings {
                domain_sources: self@.domain_sources.insert(domain@, source@),
                ..self@
            }),
    {
        let per_domain_source = self.per_domain_source.with(domain.as_str(), source);
        let r = UserAgentMiddlewareBuilder {
            source: self.source,
            strategy: self.strategy,
            fallback_user_agent: self.fallback_user_agent,
            per_domain_source,
            per_domain_strategy: self.per_domain_strategy,
            session_duration: self.session_duration,
        };
        assert(r@.domain_sources =~= self@.domain_sources.insert(domain@, source@));
        r
    }

    /// Sets how user agents take turns for a domain.
    pub fn per_domain_strategy(self, domain: String, strategy: UserAgentRotationStrategy) -> (r:
        Self)
        ensures
            r@ == (AgentSettings {
                domain_strategies: self@.domain_strategies.insert(domain@, strategy),
                ..self@
            }),
    {
        let per_domain_strategy = self.per_domain_strategy.with(domain.as_str(), strategy);
        UserAgentMiddlewareBuilder {
            source: self.source,
            strategy: self.strategy,
            fallback_user_agent: self.fallback_user_agent,
            per_domain_source: self.per_domain_source,
            per_domain_strategy,
            session_duration: self.session_duration,
        }
    }

    /// The paths of the files that have to be read before the middleware can be built.
    pub fn source_paths(&self) -> (r: Vec<String>)
        ensures
            forall|path: Seq<char>| #[trigger]
                texts(r@).contains(path) == is_needed(self@, path),
    {
        let mut r: Vec<String> = Vec::new();
        let domains = self.per_domain_source.entries();
        if let UserAgentSource::File(path) = &self.source {
            r.push(path.clone());
        }
        let mut i: usize = 0;
        proof {
            assert forall|path: Seq<char>| #[trigger] texts(r@).contains(path) == needed_so_far(
                self.source@,
                domains@,
                0,
                path,
            ) by {
                if self.source@ == SourceView::File(path) {
                    assert(texts(r@)[0] == path);
                }
            }
        }
        while i < domains.len()
            invariant
                i <= domains.len(),
                forall|path: Seq<char>| #[trigger]
                    texts(r@).contains(path) == needed_so_far(
                        self.source@,
                        domains@,
                        i as int,
                        path,
                    ),
            decreases domains.len() - i,
        {
            let ghost before = texts(r@);
            if let UserAgentSource::File(own) = &domains[i].1 {
                r.push(own.clone());
                assert(texts(r@) =~= before.push(own@));
            }
            proof {
                assert forall|path: Seq<char>| #[trigger] texts(r@).contains(path)
                    == needed_so_far(self.source@, domains@, i + 1, path) by {
                    assert(before.contains(path) == needed_so_far(
                        self.source@,
                        domains@,
                        i as int,
                        path,
                    ));
                    if before.contains(path) {
                        let k = before.index_of(path);
                        assert(texts(r@)[k] == path);
                    }
                    if domains@[i as int].1@ == SourceView::File(path) {
                        assert(texts(r@).last() == path);
                    }
                }
            }
            i += 1;
        }
        proof {
            assert forall|path: Seq<char>| #[trigger] texts(r@).contains(path) == is_needed(
                self@,
                path,
            ) by {
                needed_is_needed(*self, domains@, path);
            }
        }
        r
    }

    /// Builds the middleware; `reads` is what came of reading the files of the sources, by
    /// their paths. It fails where a source has a file that cannot be read.
    pub fn build(self, reads: &SlotTable<FileRead>) -> (r: Result<
        UserAgentMiddleware,
        SpiderError,
    >)
        ensures
            match load_error(self@.source, reads_view(reads@)) {
                Some(e) => r matches Err(f) && f@ == e,
                None => if domains_load(self@, reads_view(reads@)) {
                    r matches Ok(m) && m.well_formed() && is_built(
                        self@,
                        reads_view(reads@),
                        m@,
                    )
                } else {
                    r matches Err(f) && is_domain_error(self@, reads_view(reads@), f@)
                },
            },
    {
        let ghost settings = self@;
        let ghost files = reads_view(reads@);
        let mut agents: Vec<UserAgentProfile> = Vec::new();
        let mut pools: Vec<Vec<usize>> = Vec::new();
        let default_list = match UserAgentMiddleware::load_user_agents(&self.source, reads) {
            Ok(list) => list,
            Err(e) => {
                return Err(e);
            },
        };
        let ghost mut views: Seq<Seq<Seq<char>>> = seq![texts(default_list@)];
        let pool = add_agents(&mut agents, default_list);
        pools.push(pool);
        let mut domain_pools: SlotTable<usize> = SlotTable::new();
        let domains = self.per_domain_source.entries();
        let ghost all = domains@;
        let mut i: usize = 0;
        proof {
            assert(domain_pools@ =~= numbered(all, 0));
        }
        while i < domains.len()
            invariant
                i <= domains.len(),
                domains@ == all,
                distinct(all),
                held(all) == self.per_domain_source@,
                settings == self@,
                files == reads_view(reads@),
                all_plain(agents@),
                pools@.len() == i + 1,
                views.len() == i + 1,
                pools_are(agents@, pools@, views),
                load_error(settings.source, files) is None,
                can_load(settings.source, files, views[0]),
                forall|j: int|
                    0 <= j < i ==> load_error((#[trigger] all[j]).1@, files) is None && can_load(
                        all[j].1@,
                        files,
                        views[j + 1],
                    ),
                domain_pools@ == numbered(all, i as int),
            decreases domains.len() - i,
        {
            let list = match UserAgentMiddleware::load_user_agents(&domains[i].1, reads) {
                Ok(list) => list,
                Err(e) => {
                    proof {
                        crate::slots::held_at(all, i as int);
                        assert(settings.domain_sources.contains_key(all[i as int].0@));
                        assert(settings.domain_sources[all[i as int].0@] == all[i as int].1@);
                        assert(!domains_load(settings, files));
                        assert(is_domain_error(settings, files, e@));
                    }
                    return Err(e);
                },
            };
            let ghost text = texts(list@);
            let ghost agents_before = agents@;
            let ghost pools_before = pools@;
            let pool = add_agents(&mut agents, list);
            pools.push(pool);
            domain_pools = domain_pools.with(domains[i].0.as_str(), i + 1);
            proof {
                let before = views;
                views = views.push(text);
                assert(pools@.drop_last() =~= pools_before);
                assert(views.drop_last() =~= before);
                pools_stay(agents_before, agents@, pools_before, pools@, before, views);
                numbered_next(all, i as int);
                assert forall|j: int| 0 <= j < i + 1 implies load_error(
                    (#[trigger] all[j]).1@,
                    files,
                ) is None && can_load(all[j].1@, files, views[j + 1]) by {
                    if j < i {
                        assert(views[j + 1] == before[j + 1]);
                    }
                }
            }
            i += 1;
        }
        let session_life = match self.session_duration {
            Some(d) => d,
            None => Delay::from_secs(SESSION_SECS),
        };
        let sticky_cache = no_slots();
        let m = UserAgentMiddleware {
            strategy: self.strategy,
            fallback_user_agent: self.fallback_user_agent,
            agents,
            pools,
            domain_pools,
            sticky_cache,
            sessions: SlotTable::new(),
            session_life,
            per_domain_strategy: self.per_domain_strategy,
            current_index: 0,
        };
        proof {
            assert(domains_load(settings, files)) by {
                assert forall|domain: Seq<char>| #[trigger]
                    settings.domain_sources.contains_key(domain) implies load_error(
                    settings.domain_sources[domain],
                    files,
                ) is None by {
                    let j = held_where(all, domain);
                    assert(all[j].0@ == domain);
                }
            }
            assert(m.pools.len() == all.len() + 1);
            assert forall|d: Seq<char>| #[trigger] m.domain_pools@.contains_key(d) implies held(
                all,
            ).contains_key(d) && m.domain_pools@[d] < m.pools@.len() by {
                numbered_names(all, all.len() as int, d);
                let j = choose|j: int| 0 <= j < all.len() && (#[trigger] all[j]).0@ == d;
                crate::slots::held_at(all, j);
            }
            assert(m.well_formed());
            assert(m@.default_pool =~= views[0]);
            assert(m@.sticky =~= Map::empty());
            assert(m@.sessions =~= Map::empty());
            assert forall|d: Seq<char>| held(all).contains_key(d) implies #[trigger]
                m@.domain_pools.contains_key(d) && can_load(
                settings.domain_sources[d],
                files,
                m@.domain_pools[d],
            ) by {
                let j = held_where(all, d);
                numbered_at(all, j);
                assert(all[j].0@ == d);
                assert(m@.domain_pools[d] =~= views[j + 1]);
            }
            assert(m@.domain_pools.dom() =~= settings.domain_sources.dom()) by {
                assert forall|d: Seq<char>|
                    #![trigger m@.domain_pools.dom().contains(d)]
                    #![trigger settings.domain_sources.dom().contains(d)]
                    m@.domain_pools.dom().contains(d) == settings.domain_sources.dom().contains(
                        d,
                    ) by {
                    if m.domain_pools@.contains_key(d) {
                        assert(held(all).contains_key(d));
                    }
                    if held(all).contains_key(d) {
                        assert(m@.domain_pools.contains_key(d));
                    }
                }
            }
            assert(m@ =~= new_state(settings, m@.default_pool, m@.domain_pools));
        }
        Ok(m)
    }
}

/// Whether a path is that of a file that the first of some sources are read from.
spec fn needed_so_far(
    source: SourceView,
    domains: Seq<(String, UserAgentSource)>,
    i: int,
    path: Seq<char>,
) -> bool {
    ||| source == SourceView::File(path)
    ||| exists|j: int| 0 <= j < i && (#[trigger] domains[j]).1@ == SourceView::File(path)
}

proof fn needed_is_needed(
    builder: UserAgentMiddlewareBuilder,
    domains: Seq<(String, UserAgentSource)>,
    path: Seq<char>,
)
    requires
        distinct(domains),
        held(domains) == builder.per_domain_source@,
    ensures
        needed_so_far(builder.source@, domains, domains.len() as int, path) == is_needed(
            builder@,
            path,
        ),
{
    let sources = builder@.domain_sources;
    if exists|j: int|
        0 <= j < domains.len() && (#[trigger] domains[j]).1@ == SourceView::File(path) {
        let j = choose|j: int|
            0 <= j < domains.len() && (#[trigger] domains[j]).1@ == SourceView::File(path);
        crate::slots::held_at(domains, j);
        assert(sources.contains_key(domains[j].0@));
    }
    if exists|d: Seq<char>| #[trigger] sources.contains_key(d) && sources[d] == SourceView::File(
        path,
    ) {
        let d = choose|d: Seq<char>| #[trigger] sources.contains_key(d) && sources[d]
            == SourceView::File(path);
        let j = held_where(domains, d);
        assert(domains[j].1@ == SourceView::File(path));
    }
}

/// Where a name stands in a list.
proof fn held_where<V>(entries: Seq<(String, V)>, name: Seq<char>) -> (j: int)
    requires
        distinct(entries),
        held(entries).contains_key(name),
    ensures
        0 <= j < entries.len(),
        entries[j].0@ == name,
        held(entries)[name] == entries[j].1,
{
    if forall|i: int| 0 <= i < entries.len() ==> (#[trigger] entries[i]).0@ != name {
        crate::slots::held_nowhere_else(entries, name);
    }
    let j = choose|i: int| 0 <= i < entries.len() && (#[trigger] entries[i]).0@ == name;
    crate::slots::held_at(entries, j);
    j
}

/// The numbers of the pools of the first of some domains: 1 for the first and so on.
spec fn numbered(domains: Seq<(String, UserAgentSource)>, n: int) -> Map<Seq<char>, usize>
    decreases n,
{
    if n <= 0 {
        Map::empty()
    } else {
        numbered(domains, n - 1).insert(domains[n - 1].0@, n as usize)
    }
}

proof fn numbered_next(domains: Seq<(String, UserAgentSource)>, n: int)
    requires
        0 <= n,
    ensures
        numbered(domains, n + 1) == numbered(domains, n).insert(
            domains[n].0@,
            (n + 1) as usize,
        ),
{
}

proof fn numbered_names(domains: Seq<(String, UserAgentSource)>, n: int, name: Seq<char>)
    requires
        0 <= n <= domains.len() <= usize::MAX,
        distinct(domains),
    ensures
        numbered(domains, n).contains_key(name) == exists|j: int|
            0 <= j < n && (#[trigger] domains[j]).0@ == name,
        forall|j: int|
            0 <= j < n && (#[trigger] domains[j]).0@ == name ==> numbered(domains, n)[name] == j
                + 1,
    decreases n,
{
    if n > 0 {
        numbered_names(domains, n - 1, name);
        if exists|j: int| 0 <= j < n && (#[trigger] domains[j]).0@ == name {
            let j = choose|j: int| 0 <= j < n && (#[trigger] domains[j]).0@ == name;
            if j < n - 1 {
                assert(domains[j].0@ != domains[n - 1].0@);
            }
        }
        assert forall|j: int| 0 <= j < n && (#[trigger] domains[j]).0@ == name implies numbered(
            domains,
            n,
        )[name] == j + 1 by {
            if j < n - 1 {
                assert(domains[j].0@ != domains[n - 1].0@);
            }
        }
        if domains[n - 1].0@ == name {
            assert(numbered(domains, n).contains_key(name));
        }
    }
}

proof fn numbered_at(domains: Seq<(String, UserAgentSource)>, j: int)
    requires
        0 <= j < domains.len() < usize::MAX,
        distinct(domains),
    ensures
        numbered(domains, domains.len() as int).contains_key(domains[j].0@),
        numbered(domains, domains.len() as int)[domains[j].0@] == j + 1,
{
    numbered_names(domains, domains.len() as int, domains[j].0@);
}

/// Whether pools stand for lists of user agents.
spec fn pools_are(
    agents: Seq<UserAgentProfile>,
    pools: Seq<Vec<usize>>,
    views: Seq<Seq<Seq<char>>>,
) -> bool {
    &&& pools.len() == views.len()
    &&& pools_fit(agents, pools)
    &&& forall|j: int|
        0 <= j < pools.len() ==> pool_texts(agents, (#[trigger] pools[j])@) == views[j]
}

proof fn pools_stay(
    agents: Seq<UserAgentProfile>,
    more: Seq<UserAgentProfile>,
    pools: Seq<Vec<usize>>,
    next: Seq<Vec<usize>>,
    views: Seq<Seq<Seq<char>>>,
    after: Seq<Seq<Seq<char>>>,
)
    requires
        pools_are(agents, pools, views),
        agents.is_prefix_of(more),
        next.len() == pools.len() + 1,
        next.drop_last() == pools,
        after.len() == views.len() + 1,
        after.drop_last() == views,
        forall|k: int| 0 <= k < next.last()@.len() ==> #[trigger] next.last()@[k] < more.len(),
        pool_texts(more, next.last()@) == after.last(),
    ensures
        pools_are(more, next, after),
{
    assert forall|j: int, k: int|
        #![trigger next[j]@[k]]
        0 <= j < next.len() && 0 <= k < next[j]@.len() implies next[j]@[k] < more.len() by {
        if j < pools.len() {
            assert(next[j] == pools[j]);
            assert(pools[j]@[k] < agents.len());
        } else {
            assert(next[j] == next.last());
        }
    }
    assert forall|j: int| 0 <= j < next.len() implies pool_texts(more, (#[trigger] next[j])@)
        == after[j] by {
        if j < pools.len() {
            assert(next[j] == pools[j]);
            assert(after[j] == views[j]);
            assert(pool_texts(more, pools[j]@) =~= pool_texts(agents, pools[j]@)) by {
                assert forall|k: int| 0 <= k < pools[j]@.len() implies more[pools[j]@[k] as int]
                    == agents[pools[j]@[k] as int] by {
                    assert(pools[j]@[k] < agents.len());
                }
            }
        } else {
            assert(next[j] == next.last());
        }
    }
}

/// Adds user agents at the end of a list, and says where they stand.
fn add_agents(agents: &mut Vec<UserAgentProfile>, list: Vec<String>) -> (r: Vec<usize>)
    requires
        all_plain(old(agents)@),
    ensures
        all_plain(final(agents)@),
        old(agents)@.is_prefix_of(final(agents)@),
        forall|k: int| 0 <= k < r@.len() ==> #[trigger] r@[k] < final(agents)@.len(),
        pool_texts(final(agents)@, r@) == texts(list@),
{
    let mut r: Vec<usize> = Vec::new();
    let mut i: usize = 0;
    let ghost before = agents@;
    while i < list.len()
        invariant
            i <= list.len(),
            all_plain(agents@),
            before.is_prefix_of(agents@),
            r@.len() == i,
            forall|k: int| 0 <= k < r@.len() ==> #[trigger] r@[k] < agents@.len(),
            forall|k: int|
                0 <= k < i ==> agents@[#[trigger] r@[k] as int].user_agent@ == list@[k]@,
        decreases list.len() - i,
    {
        let place: usize = agents.len();
        let ghost so_far = agents@;
        let ghost places = r@;
        let profile = UserAgentProfile::from(list[i].clone());
        agents.push(profile);
        r.push(place);
        proof {
            assert forall|k: int| 0 <= k < i + 1 implies agents@[#[trigger] r@[k] as int].user_agent@
                == list@[k]@ by {
                if k < i {
                    assert(r@[k] == places[k]);
                    assert(agents@[r@[k] as int] == so_far[r@[k] as int]);
                }
            }
            assert forall|k: int| 0 <= k < r@.len() implies #[trigger] r@[k] < agents@.len() by {
                if k < i {
                    assert(r@[k] == places[k]);
                }
            }
            assert forall|k: int| 0 <= k < agents@.len() implies (#[trigger] agents@[k]).headers@
                == Map::<Seq<char>, String>::empty() by {
                if k < so_far.len() {
                    assert(agents@[k] == so_far[k]);
                }
            }
        }
        i += 1;
    }
    assert(pool_texts(agents@, r@) =~= texts(list@));
    r
}

impl UserAgentMiddleware {
    /// Whether the middleware is one that was built.
    pub closed spec fn well_formed(&self) -> bool {
        &&& self.pools@.len() > 0
        &&& pools_fit(self.agents@, self.pools@)
        &&& all_plain(self.agents@)
        &&& forall|d: Seq<char>| #[trigger]
            self.domain_pools@.contains_key(d) ==> self.domain_pools@[d] < self.pools@.len()
        &&& forall|d: Seq<char>| #[trigger]
            slots(self.sticky_cache).contains_key(d) ==> slots(self.sticky_cache)[d]
                < self.agents@.len()
        &&& forall|d: Seq<char>| #[trigger]
            self.sessions@.contains_key(d) ==> self.sessions@[d].agent < self.agents@.len()
    }

    /// A builder with the usual settings.
    pub fn builder() -> (r: UserAgentMiddlewareBuilder)
        ensures
            r@ == default_settings(),
    {
        UserAgentMiddlewareBuilder::default()
    }

    /// The middleware's name.
    pub fn name(&self) -> (r: &str)
        ensures
            r@ == "UserAgentMiddleware"@,
    {
        "UserAgentMiddleware"
    }

    /// How the user agents take turns.
    pub fn strategy(&self) -> (r: UserAgentRotationStrategy)
        ensures
            r == self@.strategy,
    {
        self.strategy
    }

    /// How many user agents there are for domains without their own.
    pub fn pool_size(&self) -> (r: usize)
        requires
            self.well_formed(),
        ensures
            r == self@.default_pool.len(),
    {
        self.pools[0].len()
    }

    /// The user agent where there is no other.
    pub fn fallback_user_agent(&self) -> (r: Option<String>)
        ensures
            maybe_text(r) == self@.fallback,
    {
        match &self.fallback_user_agent {
            Some(agent) => Some(agent.clone()),
            None => None,
        }
    }

    /// How many domains have user agents of their own.
    pub fn domain_count(&self) -> (r: usize)
        ensures
            r == self@.domain_pools.dom().len(),
    {
        assert(self@.domain_pools.dom() =~= self.domain_pools@.dom());
        self.domain_pools.len()
    }

    /// How many domains have a user agent that stays with them.
    pub fn sticky_count(&self) -> (r: usize)
        ensures
            r == self@.sticky.dom().len(),
    {
        assert(self@.sticky.dom() =~= slots(self.sticky_cache).dom());
        count_slots(&self.sticky_cache)
    }

    /// For how many domains a session was begun.
    pub fn session_count(&self) -> (r: usize)
        ensures
            r == self@.sessions.dom().len(),
    {
        assert(self@.sessions.dom() =~= self.sessions@.dom());
        self.sessions.len()
    }

    /// How many domains have a strategy of their own.
    pub fn domain_strategy_count(&self) -> (r: usize)
        ensures
            r == self@.domain_strategies.dom().len(),
    {
        self.per_domain_strategy.len()
    }

    /// How many turns there were.
    pub fn current_index(&self) -> (r: usize)
        ensures
            r == self@.turns,
    {
        self.current_index
    }

    /// The user agents of a source, or the error where its file cannot be read.
    pub fn load_user_agents(source: &UserAgentSource, reads: &SlotTable<FileRead>) -> (r: Result<
        Vec<String>,
        SpiderError,
    >)
        ensures
            match load_error(source@, reads_view(reads@)) {
                None => r matches Ok(v) && can_load(source@, reads_view(reads@), texts(v@)),
                Some(e) => r matches Err(f) && f@ == e,
            },
    {
        match source {
            UserAgentSource::List(list) => Ok(copy_texts(list)),
            UserAgentSource::File(path) => {
                match reads.get(path.as_str()) {
                    Some(read) => load_items(read, "User-agent file not found: ", path.as_str()),
                    None => load_items(
                        &FileRead::Missing,
                        "User-agent file not found: ",
                        path.as_str(),
                    ),
                }
            },
            UserAgentSource::Builtin(list) => Ok(load_builtin_user_agents(*list)),
            UserAgentSource::Nowhere => {
                let none: Vec<String> = Vec::new();
                assert(texts(none@) =~= Seq::empty());
                Ok(none)
            },
        }
    }

    /// How many user agents there are in all.
    pub closed spec fn agent_count(&self) -> nat {
        self.agents@.len()
    }

    /// The user agent at a place.
    pub closed spec fn agent_at(&self, place: int) -> Seq<char> {
        self.agents@[place].user_agent@
    }

    /// The user agent at a place that may be missing.
    pub open spec fn maybe_agent(&self, place: Option<usize>) -> Option<Seq<char>> {
        match place {
            Some(i) => Some(self.agent_at(i as int)),
            None => None,
        }
    }

    /// Whether chance took a user agent when it was asked for one of the domain's own pool
    /// where it has one, else of the others.
    pub closed spec fn is_drawn(&self, domain: Option<Seq<char>>, agent: Seq<char>) -> bool {
        self.is_drawn_of(self.pool_index(domain), agent)
    }

    /// The number of the pool that is chosen from for a domain.
    spec fn pool_index(&self, domain: Option<Seq<char>>) -> int {
        if domain is Some && self.domain_pools@.contains_key(domain->0) {
            self.domain_pools@[domain->0] as int
        } else {
            0
        }
    }

    /// Whether chance took a user agent when it was asked for one of a pool.
    spec fn is_drawn_of(&self, number: int, agent: Seq<char>) -> bool {
        exists|place: &usize| #[trigger]
            call_ensures(chosen::<usize>, (&self.pools@[number],), Some(place))
                && self.agents@[*place as int].user_agent@ == agent
    }

    /// The number of the pool that is chosen from for a domain.
    fn pool_number(&self, domain: &Option<String>) -> (r: usize)
        requires
            self.well_formed(),
        ensures
            r < self.pools@.len(),
            r == self.pool_index(maybe_text(*domain)),
            pool_texts(self.agents@, self.pools@[r as int]@) == pool_for(
                self@,
                maybe_text(*domain),
            ),
    {
        match domain {
            Some(d) => match self.domain_pools.get(d.as_str()) {
                Some(j) => *j,
                None => 0,
            },
            None => 0,
        }
    }

    /// The place of the user agent for a request to a domain where one was drawn; nothing
    /// where the fallback is to be taken.
    pub fn choose_agent(
        &mut self,
        domain: &Option<String>,
        now: Delay,
        drawn: Option<usize>,
    ) -> (r: Option<usize>)
        requires
            old(self).well_formed(),
            drawn matches Some(i) ==> i < old(self).agent_count(),
            can_draw(old(self)@, maybe_text(*domain), old(self).maybe_agent(drawn)),
        ensures
            final(self).well_formed(),
            final(self).agent_count() == old(self).agent_count(),
            forall|i: int| #[trigger] final(self).agent_at(i) == old(self).agent_at(i),
            r matches Some(i) ==> i < final(self).agent_count(),
            (match r {
                Some(i) => Some(final(self).agent_at(i as int)),
                None => old(self)@.fallback,
            }) == choice_for(
                old(self)@,
                maybe_text(*domain),
                now@,
                old(self).maybe_agent(drawn),
            ),
            final(self)@ == after_choice(
                old(self)@,
                maybe_text(*domain),
                now@,
                old(self).maybe_agent(drawn),
            ),
    {
        let ghost state = self@;
        let key = match domain {
            Some(d) => d.clone(),
            None => String::new(),
        };
        let strategy = match self.per_domain_strategy.get(key.as_str()) {
            Some(own) => *own,
            None => self.strategy,
        };
        let number: usize = self.pool_number(domain);
        let kept: Option<usize> = match strategy {
            UserAgentRotationStrategy::Sticky => find_slot(&self.sticky_cache, key.as_str()),
            UserAgentRotationStrategy::StickySession => match self.sessions.get(key.as_str()) {
                Some(session) => {
                    if now.saturating_sub(session.since).shorter_than(&self.session_life) {
                        Some(session.agent)
                    } else {
                        None
                    }
                },
                None => None,
            },
            _ => None,
        };
        let ghost pool = pool_texts(self.agents@, self.pools@[number as int]@);
        proof {
            assert(key@ =~= domain_key(maybe_text(*domain)));
            assert(strategy == strategy_for(state, maybe_text(*domain)));
            assert(kept is Some == kept_for(state, maybe_text(*domain), now@) is Some);
        }
        let has_kept = match kept {
            Some(_) => true,
            None => false,
        };
        let pool_len: usize = self.pools[number].len();
        assert(pool.len() == pool_len);
        match decide(strategy, has_kept, pool_len, self.current_index) {
            Decision::Kept => kept,
            Decision::Fallback => None,
            Decision::Turn(k) => {
                let place: usize = self.pools[number][k];
                self.current_index = self.current_index.wrapping_add(1);
                proof {
                    assert(pool[k as int] == self.agents@[place as int].user_agent@);
                    assert(self@ =~= next_turn(state));
                }
                Some(place)
            },
            Decision::Draw => drawn,
            Decision::DrawAndKeep => {
                if let Some(place) = drawn {
                    let ghost text = self.agents@[place as int].user_agent@;
                    match strategy {
                        UserAgentRotationStrategy::Sticky => {
                            put_slot(&mut self.sticky_cache, key.as_str(), place);
                            assert(self@.sticky =~= state.sticky.insert(key@, text));
                            assert(self@ =~= (AgentState {
                                sticky: state.sticky.insert(key@, text),
                                ..state
                            }));
                        },
                        _ => {
                            let mut sessions: SlotTable<Session> = SlotTable::new();
                            std::mem::swap(&mut self.sessions, &mut sessions);
                            let session = Session { agent: place, since: now };
                            self.sessions = sessions.with(key.as_str(), session);
                            assert(self@.sessions =~= state.sessions.insert(key@, (text, now@)));
                            assert(self@ =~= (AgentState {
                                sessions: state.sessions.insert(key@, (text, now@)),
                                ..state
                            }));
                        },
                    }
                }
                drawn
            },
        }
    }

    /// The place of the user agent for a request to a domain; nothing where the fallback
    /// is to be taken.
    fn get_user_agent(&mut self, domain: &Option<String>, now: Delay) -> (r: Option<usize>)
        requires
            old(self).well_formed(),
        ensures
            final(self).well_formed(),
            r matches Some(i) ==> i < final(self).agent_count(),
            can_choose(
                old(self)@,
                maybe_text(*domain),
                now@,
                match r {
                    Some(i) => Some(final(self).agent_at(i as int)),
                    None => old(self)@.fallback,
                },
                final(self)@,
            ),
            is_left_to_chance(old(self)@, maybe_text(*domain), now@) ==> match r {
                Some(i) => old(self).is_drawn(
                    maybe_text(*domain),
                    final(self).agent_at(i as int),
                ),
                None => old(self)@.fallback is Some && old(self).is_drawn(
                    maybe_text(*domain),
                    old(self)@.fallback->0,
                ),
            },
    {
        let number: usize = self.pool_number(domain);
        let drawn: Option<usize> = if self.pools[number].len() == 0 {
            None
        } else {
            let place: usize = self.draw(number);
            assert(self.is_drawn(maybe_text(*domain), self.agent_at(place as int)));
            Some(place)
        };
        assert(can_draw(self@, maybe_text(*domain), self.maybe_agent(drawn)));
        self.choose_agent(domain, now, drawn)
    }

    /// The place of some user agent of a pool.
    fn draw(&self, number: usize) -> (r: usize)
        requires
            self.well_formed(),
            number < self.pools@.len(),
            self.pools@[number as int]@.len() > 0,
        ensures
            r < self.agents@.len(),
            pool_texts(self.agents@, self.pools@[number as int]@).contains(
                self.agents@[r as int].user_agent@,
            ),
            self.is_drawn_of(number as int, self.agents@[r as int].user_agent@),
    {
        let pool = &self.pools[number];
        match chosen(pool) {
            Some(place) => {
                proof {
                    let k = pool@.index_of(*place);
                    assert(pool@[k] == *place);
                    assert(pool_texts(self.agents@, pool@)[k]
                        == self.agents@[*place as int].user_agent@);
                }
                *place
            },
            None => pool[0],
        }
    }

    /// Sends a user agent with a request.
    pub fn process_request(&mut self, request: Request, now: Delay) -> (r: Result<
        MiddlewareAction<Request>,
        SpiderError,
    >)
        requires
            old(self).well_formed(),
        ensures
            final(self).well_formed(),
            exists|choice: Option<Seq<char>>| #[trigger]
                can_choose(old(self)@, request@.url.domain, now@, choice, final(self)@) && (
                is_left_to_chance(old(self)@, request@.url.domain, now@) ==> choice is Some && old(
                    self,
                ).is_drawn(request@.url.domain, choice->0)) && match choice {
                    Some(agent) => answer_unless_crowded(
                        r,
                        with_agent(request@, agent),
                        is_field_value(agent) && !roomy(request@.headers) && is_refused(
                            request@.headers,
                            "user-agent"@,
                            agent,
                        ),
                    ),
                    None => r matches Ok(MiddlewareAction::Continue(q)) && q == request,
                },
    {
        let domain = request.url.domain();
        let place = self.get_user_agent(&domain, now);
        assert(maybe_text(domain) == request@.url.domain);
        let ghost start = request@;
        match place {
            Some(i) => {
                let r = apply_profile(request, &self.agents[i]);
                proof {
                    plain_profiles_only_set_the_agent(r, start, self.agents@[i as int]);
                }
                r
            },
            None => match &self.fallback_user_agent {
                Some(agent) => {
                    let profile = UserAgentProfile::from(agent.clone());
                    let r = apply_profile(request, &profile);
                    proof {
                        plain_profiles_only_set_the_agent(r, start, profile);
                    }
                    r
                },
                None => Ok(MiddlewareAction::Continue(request)),
            },
        }
    }
}

proof fn plain_profiles_only_set_the_agent(
    r: Result<MiddlewareAction<Request>, SpiderError>,
    request: RequestView,
    profile: UserAgentProfile,
)
    requires
        profile.headers@ == Map::<Seq<char>, String>::empty(),
        exists|fields: Seq<(String, String)>| #[trigger]
            are_fields_of(profile, fields) && answer_unless_crowded(
                r,
                with_profile(request, profile.user_agent@, fields),
                is_field_value(profile.user_agent@) && !has_room_for(request, fields.len())
                && is_profile_refused(request, profile.user_agent@, fields),
            ),
    ensures
        answer_unless_crowded(
            r,
            with_agent(request, profile.user_agent@),
            is_field_value(profile.user_agent@) && !roomy(request.headers) && is_refused(
                request.headers,
                "user-agent"@,
                profile.user_agent@,
            ),
        ),
{
    let fields = choose|fields: Seq<(String, String)>| #[trigger]
        are_fields_of(profile, fields) && answer_unless_crowded(
            r,
            with_profile(request, profile.user_agent@, fields),
            is_field_value(profile.user_agent@) && !has_room_for(request, fields.len())
                && is_profile_refused(request, profile.user_agent@, fields),
        );
    fields_are_few(fields);
}

/// A request that a user agent was chosen for.
pub struct Call {
    /// The domain.
    pub domain: Option<Seq<char>>,
    /// When it was.
    pub now: nat,
    /// The user agent.
    pub choice: Option<Seq<char>>,
}

/// Whether requests one after the other can lead through states.
pub open spec fn is_run(states: Seq<AgentState>, calls: Seq<Call>) -> bool {
    &&& states.len() == calls.len() + 1
    &&& forall|i: int|
        0 <= i < calls.len() ==> can_choose(
            states[i],
            (#[trigger] calls[i]).domain,
            calls[i].now,
            calls[i].choice,
            states[i + 1],
        )
}

/// What never changes: the pools, the strategies, the fallback and how long a session is.
pub open spec fn same_settings(a: AgentState, b: AgentState) -> bool {
    &&& a.strategy == b.strategy
    &&& a.fallback == b.fallback
    &&& a.default_pool == b.default_pool
    &&& a.domain_pools == b.domain_pools
    &&& a.domain_strategies == b.domain_strategies
    &&& a.session_life == b.session_life
}

/// Requests never change the pools, the strategies, the fallback and how long a session is:
/// the user agents of a domain's own source stay in force.
pub proof fn settings_stay(states: Seq<AgentState>, calls: Seq<Call>, i: int)
    requires
        is_run(states, calls),
        0 <= i <= calls.len(),
    ensures
        same_settings(states[0], states[i]),
    decreases i,
{
    if i > 0 {
        settings_stay(states, calls, i - 1);
        let call = calls[i - 1];
        assert(can_choose(states[i - 1], call.domain, call.now, call.choice, states[i]));
    }
}

/// A user agent that was chosen for a domain and stays with it is sent with every later
/// request to that domain, whatever requests to others come between and whenever it is.
pub proof fn sticky_agents_stay(states: Seq<AgentState>, calls: Seq<Call>, i: int, j: int)
    requires
        is_run(states, calls),
        0 <= i < j < calls.len(),
        strategy_for(states[0], calls[i].domain) == UserAgentRotationStrategy::Sticky,
        pool_for(states[0], calls[i].domain).len() > 0,
        calls[j].domain == calls[i].domain,
    ensures
        calls[i].choice is Some,
        calls[j].choice == calls[i].choice,
{
    let first = calls[i];
    assert(can_choose(states[i], first.domain, first.now, first.choice, states[i + 1]));
    settings_stay(states, calls, i);
    assert(states[i + 1].sticky.contains_key(domain_key(first.domain)));
    assert(first.choice == Some(states[i + 1].sticky[domain_key(first.domain)]));
    sticky_stays_kept(states, calls, i + 1, j);
    let call = calls[j];
    settings_stay(states, calls, j);
    assert(can_choose(states[j], call.domain, call.now, call.choice, states[j + 1]));
}

proof fn sticky_stays_kept(states: Seq<AgentState>, calls: Seq<Call>, i: int, j: int)
    requires
        is_run(states, calls),
        0 <= i <= j <= calls.len(),
    ensures
        forall|key: Seq<char>| #[trigger]
            states[i].sticky.contains_key(key) ==> states[j].sticky.contains_key(key)
                && states[j].sticky[key] == states[i].sticky[key],
    decreases j - i,
{
    if i < j {
        sticky_stays_kept(states, calls, i, j - 1);
        let call = calls[j - 1];
        let before = states[j - 1];
        assert(can_choose(before, call.domain, call.now, call.choice, states[j]));
        assert forall|key: Seq<char>| #[trigger] states[i].sticky.contains_key(key) implies
            states[j].sticky.contains_key(key) && states[j].sticky[key]
            == states[i].sticky[key] by {
            assert(before.sticky.contains_key(key));
        }
    }
}

/// Whether requests come in the order of time.
pub open spec fn in_order(calls: Seq<Call>) -> bool {
    forall|i: int, j: int|
        0 <= i <= j < calls.len() ==> (#[trigger] calls[i]).now <= (#[trigger] calls[j]).now
}

/// A user agent that was chosen for a session with a domain is sent with every request to it
/// until the session is over, which the requests between do not put off. A request begins a
/// session where none lasts.
pub proof fn sessions_keep_their_agent(states: Seq<AgentState>, calls: Seq<Call>, i: int, j: int)
    requires
        is_run(states, calls),
        in_order(calls),
        0 <= i < j < calls.len(),
        strategy_for(states[0], calls[i].domain) == UserAgentRotationStrategy::StickySession,
        pool_for(states[0], calls[i].domain).len() > 0,
        kept_for(states[i], calls[i].domain, calls[i].now) is None,
        calls[j].domain == calls[i].domain,
        calls[j].now - calls[i].now < states[0].session_life,
    ensures
        calls[i].choice is Some,
        calls[j].choice == calls[i].choice,
        states[j].sessions[domain_key(calls[i].domain)] == (calls[i].choice->0, calls[i].now),
{
    let first = calls[i];
    assert(can_choose(states[i], first.domain, first.now, first.choice, states[i + 1]));
    settings_stay(states, calls, i);
    session_stays_kept(states, calls, i, j);
    let call = calls[j];
    settings_stay(states, calls, j);
    assert(can_choose(states[j], call.domain, call.now, call.choice, states[j + 1]));
}

proof fn session_stays_kept(states: Seq<AgentState>, calls: Seq<Call>, i: int, j: int)
    requires
        is_run(states, calls),
        in_order(calls),
        0 <= i < j < calls.len(),
        strategy_for(states[0], calls[i].domain) == UserAgentRotationStrategy::StickySession,
        calls[j].now - calls[i].now < states[0].session_life,
        states[i + 1].sessions.contains_key(domain_key(calls[i].domain)),
        states[i + 1].sessions[domain_key(calls[i].domain)].1 == calls[i].now,
    ensures
        states[j].sessions.contains_key(domain_key(calls[i].domain)),
        states[j].sessions[domain_key(calls[i].domain)] == states[i
            + 1].sessions[domain_key(calls[i].domain)],
    decreases j - i,
{
    if i + 1 < j {
        let key = domain_key(calls[i].domain);
        let call = calls[j - 1];
        let before = states[j - 1];
        assert(calls[i].now <= call.now <= calls[j].now);
        session_stays_kept(states, calls, i, j - 1);
        settings_stay(states, calls, j - 1);
        assert(can_choose(before, call.domain, call.now, call.choice, states[j]));
        if domain_key(call.domain) == key {
            assert(strategy_for(before, call.domain) == strategy_for(states[0], calls[i].domain));
            assert(kept_for(before, call.domain, call.now) is Some);
        }
    }
}

/// Once a session is over, one of the user agents that are chosen from is chosen anew and
/// begins another.
pub proof fn sessions_end(
    state: AgentState,
    domain: Option<Seq<char>>,
    now: nat,
    choice: Option<Seq<char>>,
    after: AgentState,
)
    requires
        strategy_for(state, domain) == UserAgentRotationStrategy::StickySession,
        pool_for(state, domain).len() > 0,
        state.sessions.contains_key(domain_key(domain)),
        now - state.sessions[domain_key(domain)].1 >= state.session_life,
        can_choose(state, domain, now, choice, after),
    ensures
        choice is Some,
        pool_for(state, domain).contains(choice->0),
        after.sessions[domain_key(domain)] == (choice->0, now),
{
}

/// User agents that take turns one after the other do so in the order of their pool, and
/// begin again at its end: while every request takes its turn from the same pool, the k-th
/// after the first is sent with the one that stands k places further round. While the turns
/// can be counted.
pub proof fn agents_take_turns(
    states: Seq<AgentState>,
    calls: Seq<Call>,
    pool: Seq<Seq<char>>,
    k: int,
)
    requires
        is_run(states, calls),
        pool.len() > 0,
        forall|i: int|
            0 <= i < calls.len() ==> strategy_for(states[0], (#[trigger] calls[i]).domain)
                == UserAgentRotationStrategy::Sequential && pool_for(states[0], calls[i].domain)
                == pool,
        0 <= k < calls.len(),
        states[0].turns + k < usize::MAX,
    ensures
        calls[k].choice == Some(pool[(states[0].turns + k) % pool.len() as int]),
        states[k].turns == states[0].turns + k,
        states[k + 1].turns == states[0].turns + k + 1,
    decreases k,
{
    if k > 0 {
        agents_take_turns(states, calls, pool, k - 1);
    }
    settings_stay(states, calls, k);
    let call = calls[k];
    assert(strategy_for(states[0], call.domain) == UserAgentRotationStrategy::Sequential);
    assert(can_choose(states[k], call.domain, call.now, call.choice, states[k + 1]));
}

/// As many requests as there are user agents in the pool are each sent with the one at
/// another place, and then it begins again.
pub proof fn every_agent_has_its_turn(turns: int, len: int, i: int, j: int)
    requires
        len > 0,
        0 <= turns,
        i < j,
    ensures
        j < i + len ==> (turns + i) % len != (turns + j) % len,
        j == i + len ==> (turns + i) % len == (turns + j) % len,
{
    if j < i + len {
        vstd::arithmetic::div_mod::lemma_fundamental_div_mod(turns + i, len);
        vstd::arithmetic::div_mod::lemma_fundamental_div_mod(turns + j, len);
        if (turns + i) % len == (turns + j) % len {
            let q = (turns + j) / len - (turns + i) / len;
            assert(j - i == len * q) by (nonlinear_arith)
                requires
                    turns + i == len * ((turns + i) / len) + (turns + i) % len,
                    turns + j == len * ((turns + j) / len) + (turns + j) % len,
                    (turns + i) % len == (turns + j) % len,
                    q == (turns + j) / len - (turns + i) / len,
            ;
            assert(false) by (nonlinear_arith)
                requires
                    j - i == len * q,
                    0 < j - i < len,
            ;
        }
    } else if j == i + len {
        vstd::arithmetic::div_mod::lemma_mod_add_multiples_vanish(turns + i, len);
        assert(turns + j == len + (turns + i));
    }
}

/// Whether a user agent is one of those that can be chosen.
pub open spec fn is_on_offer(state: AgentState, agent: Seq<char>) -> bool {
    ||| state.default_pool.contains(agent)
    ||| exists|d: Seq<char>| #[trigger]
        state.domain_pools.contains_key(d) && state.domain_pools[d].contains(agent)
}

/// Whether all user agents that are kept for domains were on offer.
pub open spec fn keeps_what_is_on_offer(state: AgentState) -> bool {
    &&& forall|d: Seq<char>| #[trigger]
        state.sticky.contains_key(d) ==> is_on_offer(state, state.sticky[d])
    &&& forall|d: Seq<char>| #[trigger]
        state.sessions.contains_key(d) ==> is_on_offer(state, state.sessions[d].0)
}

/// A request is sent with a user agent that is on offer, or with the fallback; and what is
/// kept stays on offer. A new middleware keeps nothing.
pub proof fn only_what_is_on_offer_is_sent(
    state: AgentState,
    domain: Option<Seq<char>>,
    now: nat,
    choice: Option<Seq<char>>,
    after: AgentState,
)
    requires
        keeps_what_is_on_offer(state),
        can_choose(state, domain, now, choice, after),
    ensures
        choice == state.fallback || is_on_offer(state, choice->0),
        keeps_what_is_on_offer(after),
{
    let drawn = choose|drawn: Option<Seq<char>>| #[trigger]
        can_draw(state, domain, drawn) && choice == choice_for(state, domain, now, drawn) && after
            == after_choice(state, domain, now, drawn);
    let key = domain_key(domain);
    let pool = pool_for(state, domain);
    assert(after.default_pool == state.default_pool);
    assert(after.domain_pools == state.domain_pools);
    assert forall|a: Seq<char>| #[trigger] is_on_offer(after, a) == is_on_offer(state, a) by {}
    assert forall|a: Seq<char>| pool.contains(a) implies #[trigger] is_on_offer(state, a) by {
        if domain is Some && state.domain_pools.contains_key(domain->0) {
            assert(state.domain_pools[domain->0].contains(a));
        }
    }
    if kept_for(state, domain, now) is None && pool.len() > 0 {
        let turn = pool[state.turns as int % pool.len() as int];
        assert(pool.contains(turn));
        assert(is_on_offer(state, choice->0));
        assert(is_on_offer(state, drawn->0));
        assert forall|d: Seq<char>| #[trigger] after.sticky.contains_key(d) implies is_on_offer(
            after,
            after.sticky[d],
        ) by {
            if d != key {
                assert(state.sticky.contains_key(d));
            } else if state.sticky.contains_key(d) {
                assert(is_on_offer(state, state.sticky[d]));
            }
        }
        assert forall|d: Seq<char>| #[trigger] after.sessions.contains_key(d) implies is_on_offer(
            after,
            after.sessions[d].0,
        ) by {
            if state.sessions.contains_key(d) {
                assert(is_on_offer(state, state.sessions[d].0));
            }
        }
    } else if kept_for(state, domain, now) is Some {
        if strategy_for(state, domain) == UserAgentRotationStrategy::Sticky {
            assert(state.sticky.contains_key(key));
        } else {
            assert(state.sessions.contains_key(key));
        }
    }
}

/// Where a domain has nothing kept, one of its own user agents is sent where it has a source
/// of its own, else one of the others; and the fallback where there is none to choose from,
/// also where the others are not tried.
pub proof fn domains_have_their_own_agents(
    state: AgentState,
    domain: Option<Seq<char>>,
    now: nat,
    choice: Option<Seq<char>>,
    after: AgentState,
)
    requires
        kept_for(state, domain, now) is None,
        can_choose(state, domain, now, choice, after),
    ensures
        pool_for(state, domain).len() > 0 ==> choice is Some && pool_for(state, domain).contains(
            choice->0,
        ),
        pool_for(state, domain).len() == 0 ==> choice == state.fallback && after == state,
{
}

/// A user agent by chance comes of asking chance for one of a pool, and is no other: the pool
/// of the domain where it has its own, else the first.
proof fn chance_takes_the_agent(
    middleware: UserAgentMiddleware,
    domain: Option<Seq<char>>,
    agent: Seq<char>,
)
    requires
        middleware.is_drawn(domain, agent),
    ensures
        domain is Some && middleware.domain_pools@.contains_key(domain->0)
            ==> middleware.is_drawn_of(middleware.domain_pools@[domain->0] as int, agent),
        domain is None || !middleware.domain_pools@.contains_key(domain->0)
            ==> middleware.is_drawn_of(0, agent),
{
}

/// As above, for a pool.
proof fn chance_takes_the_agent_of_the_pool(
    middleware: UserAgentMiddleware,
    number: int,
    agent: Seq<char>,
)
    requires
        middleware.is_drawn_of(number, agent),
    ensures
        exists|place: &usize| #[trigger]
            call_ensures(chosen::<usize>, (&middleware.pools@[number],), Some(place))
                && middleware.agents@[*place as int].user_agent@ == agent,
{
}

/// What comes of a request to a domain, by what is set and kept for it and nothing else.
///
/// The domain's own strategy is in force where it has one, and its own user agents are chosen
/// from where it has some to itself, under each of the strategies. By chance any of them can
/// come and nothing is kept. One after the other, it is the one at the place that is counted,
/// round and round, and one more is counted. The one that stays with a domain is sent where
/// there is one, also where it is no longer among them, and else one of them comes to stay. The
/// one of a session is sent for as long as the session lasts after it began, and else one of
/// them begins another. Where there are none to choose from it is the fallback, and nothing is
/// counted or kept. What is set never changes.
pub proof fn choices_follow_what_is_set(
    state: AgentState,
    domain: Option<Seq<char>>,
    now: nat,
    choice: Option<Seq<char>>,
    after: AgentState,
)
    requires
        can_choose(state, domain, now, choice, after),
    ensures
        after.strategy == state.strategy,
        after.fallback == state.fallback,
        after.default_pool == state.default_pool,
        after.domain_pools == state.domain_pools,
        after.domain_strategies == state.domain_strategies,
        after.session_life == state.session_life,
        ({
            let key = match domain {
                Some(d) => d,
                None => Seq::<char>::empty(),
            };
            let strategy = if state.domain_strategies.contains_key(key) {
                state.domain_strategies[key]
            } else {
                state.strategy
            };
            let pool = if domain is Some && state.domain_pools.contains_key(domain->0) {
                state.domain_pools[domain->0]
            } else {
                state.default_pool
            };
            let is_kept = match strategy {
                UserAgentRotationStrategy::Sticky => state.sticky.contains_key(key),
                UserAgentRotationStrategy::StickySession => state.sessions.contains_key(key)
                    && state.session_life > 0 && now < state.sessions[key].1 + state.session_life,
                _ => false,
            };
            &&& is_kept ==> after == state && choice == Some(
                if strategy == UserAgentRotationStrategy::Sticky {
                    state.sticky[key]
                } else {
                    state.sessions[key].0
                },
            )
            &&& !is_kept && pool.len() == 0 ==> after == state && choice == state.fallback
            &&& !is_kept && pool.len() > 0 ==> choice is Some && pool.contains(choice->0)
                && match strategy {
                UserAgentRotationStrategy::Random => after == state,
                UserAgentRotationStrategy::Sequential => {
                    &&& choice == Some(pool[state.turns as int % pool.len() as int])
                    &&& after.sticky == state.sticky
                    &&& after.sessions == state.sessions
                    &&& state.turns < usize::MAX ==> after.turns == state.turns + 1
                    &&& state.turns == usize::MAX ==> after.turns == 0
                },
                UserAgentRotationStrategy::Sticky => {
                    &&& after.sticky == state.sticky.insert(key, choice->0)
                    &&& after.sessions == state.sessions
                    &&& after.turns == state.turns
                },
                UserAgentRotationStrategy::StickySession => {
                    &&& after.sticky == state.sticky
                    &&& after.sessions == state.sessions.insert(key, (choice->0, now))
                    &&& after.turns == state.turns
                },
            }
        }),
{
    let drawn = choose|drawn: Option<Seq<char>>| #[trigger]
        can_draw(state, domain, drawn) && choice == choice_for(state, domain, now, drawn) && after
            == after_choice(state, domain, now, drawn);
    let pool = if domain is Some && state.domain_pools.contains_key(domain->0) {
        state.domain_pools[domain->0]
    } else {
        state.default_pool
    };
    if pool.len() > 0 {
        vstd::arithmetic::div_mod::lemma_mod_bound(state.turns as int, pool.len() as int);
        assert(pool.contains(pool[state.turns as int % pool.len() as int]));
    }
}

/// Where nothing is kept for a domain that has user agents of its own, one of them is sent,
/// under each of the strategies; and one of the others where it has no source of its own.
pub proof fn own_agents_are_sent(
    state: AgentState,
    domain: Seq<char>,
    now: nat,
    choice: Option<Seq<char>>,
    after: AgentState,
)
    requires
        can_choose(state, Some(domain), now, choice, after),
        !state.sticky.contains_key(domain),
        !state.sessions.contains_key(domain),
    ensures
        state.domain_pools.contains_key(domain) && state.domain_pools[domain].len() > 0
            ==> choice is Some && state.domain_pools[domain].contains(choice->0),
        !state.domain_pools.contains_key(domain) && state.default_pool.len() > 0
            ==> choice is Some && state.default_pool.contains(choice->0),
{
    choices_follow_what_is_set(state, Some(domain), now, choice, after);
}

/// A request is sent with the user agent that was chosen for the domain of its URL, as the one
/// value of that field, and is otherwise as it was; with none chosen it is just as it was. One
/// that holds a control character other than the tab is an error that names it. One by chance
/// is one that chance took of the pool.
pub proof fn chosen_agents_are_sent(
    middleware: &mut UserAgentMiddleware,
    request: Request,
    now: Delay,
    r: Result<MiddlewareAction<Request>, SpiderError>,
)
    requires
        old(middleware).well_formed(),
        call_ensures(UserAgentMiddleware::process_request, (middleware, request, now), r),
    ensures
        final(middleware).well_formed(),
        exists|choice: Option<Seq<char>>| #[trigger]
            can_choose(
                old(middleware)@,
                request@.url.domain,
                now@,
                choice,
                final(middleware)@,
            ) && (is_left_to_chance(old(middleware)@, request@.url.domain, now@)
                ==> choice is Some && old(middleware).is_drawn(request@.url.domain, choice->0))
                && match choice {
                None => r == Ok::<MiddlewareAction<Request>, SpiderError>(
                    MiddlewareAction::Continue(request),
                ),
                Some(agent) => {
                    let sendable = forall|i: int|
                        0 <= i < agent.len() ==> (' ' <= #[trigger] agent[i] && agent[i] != '\u{7f}')
                            || agent[i] == '\t';
                    &&& !sendable ==> (r matches Err(SpiderError::HeaderValueError(e)) && e@
                        == "Invalid User-Agent string '"@ + agent
                        + "': failed to parse header value"@)
                    &&& sendable && request@.headers.dom().finite() && request@.headers.dom().len()
                        <= 6553 ==> (r matches Ok(MiddlewareAction::Continue(_)))
                    &&& sendable && r is Err ==> is_refused(
                        request@.headers,
                        "user-agent"@,
                        agent,
                    )
                    &&& r matches Ok(action) ==> {
                        let sent = action->Continue_0@;
                        &&& action is Continue
                        &&& sendable
                        &&& sent.url == request@.url
                        &&& sent.method == request@.method
                        &&& sent.body == request@.body
                        &&& sent.meta == request@.meta
                        &&& sent.headers.contains_key("user-agent"@)
                        &&& sent.headers["user-agent"@] == seq![encode_utf8(agent)]
                        &&& forall|name: Seq<char>|
                            name != "user-agent"@ ==> (#[trigger] sent.headers.contains_key(name))
                                == request@.headers.contains_key(name)
                        &&& forall|name: Seq<char>|
                            name != "user-agent"@ && sent.headers.contains_key(name)
                                ==> #[trigger] sent.headers[name] == request@.headers[name]
                    }
                },
            },
{
    let choice = choose|choice: Option<Seq<char>>| #[trigger]
        can_choose(old(middleware)@, request@.url.domain, now@, choice, final(middleware)@) && (
        is_left_to_chance(old(middleware)@, request@.url.domain, now@) ==> choice is Some && old(
            middleware,
        ).is_drawn(request@.url.domain, choice->0)) && match choice {
            Some(agent) => answer_unless_crowded(
                r,
                with_agent(request@, agent),
                is_field_value(agent) && !roomy(request@.headers) && is_refused(
                            request@.headers,
                            "user-agent"@,
                            agent,
                        ),
            ),
            None => r matches Ok(MiddlewareAction::Continue(q)) && q == request,
        };
    if let Some(agent) = choice {
        let sendable = forall|i: int|
            0 <= i < agent.len() ==> (' ' <= #[trigger] agent[i] && agent[i] != '\u{7f}')
                || agent[i] == '\t';
        assert(sendable == is_field_value(agent));
    }
    assert(can_choose(
        old(middleware)@,
        request@.url.domain,
        now@,
        choice,
        final(middleware)@,
    ));
}

/// The user agents of a source: those of a list as they stand, the lines of a file that say
/// something, and those of a list that is known beforehand. A file that is not there, or was not
/// read, is an error that names its path, and one that cannot be opened the error that came.
pub proof fn sources_give_their_agents(
    source: UserAgentSource,
    reads: SlotTable<FileRead>,
    r: Result<Vec<String>, SpiderError>,
)
    requires
        call_ensures(UserAgentMiddleware::load_user_agents, (&source, &reads), r),
    ensures
        match source {
            UserAgentSource::List(list) => r is Ok && texts(r->Ok_0@) == texts(list@),
            UserAgentSource::Nowhere => r is Ok && r->Ok_0@.len() == 0,
            UserAgentSource::Builtin(list) => r is Ok && can_list(list, texts(r->Ok_0@)),
            UserAgentSource::File(path) => if !reads@.contains_key(path@) {
                r matches Err(SpiderError::IoError(e)) && e@ == "User-agent file not found: "@
                    + path@
            } else {
                match reads@[path@] {
                    FileRead::Missing => r matches Err(SpiderError::IoError(e)) && e@
                        == "User-agent file not found: "@ + path@,
                    FileRead::Unreadable(words) => r matches Err(SpiderError::IoError(e)) && e@
                        == words@,
                    FileRead::Lines(lines) => r is Ok && texts(r->Ok_0@) == texts(lines@).filter(
                        |line: Seq<char>| says_something(line),
                    ),
                }
            },
        },
{
    if let UserAgentSource::File(path) = source {
        if reads@.contains_key(path@) {
            if let FileRead::Lines(lines) = reads@[path@] {
                items_are_what_lines_say(texts(lines@));
            }
        }
    }
    if let UserAgentSource::Nowhere = source {
        assert(texts(r->Ok_0@).len() == r->Ok_0@.len());
    }
}

/// A middleware is built where the files of all sources could be read, and then has the user
/// agents of its source, for each domain with a source of its own those of that, what else was
/// set, nothing chosen yet, and sessions of five minutes where nothing was set for them.
pub proof fn built_middlewares_have_their_agents(
    builder: UserAgentMiddlewareBuilder,
    reads: SlotTable<FileRead>,
    r: Result<UserAgentMiddleware, SpiderError>,
)
    requires
        call_ensures(UserAgentMiddlewareBuilder::build, (builder, &reads), r),
    ensures
        r is Ok == ((builder@.source matches SourceView::File(path) ==> reads@.contains_key(path)
            && reads@[path] is Lines) && (forall|d: Seq<char>| #[trigger]
            builder@.domain_sources.contains_key(d) ==> (builder@.domain_sources[d] matches
                SourceView::File(path) ==> reads@.contains_key(path) && reads@[path] is Lines))),
        r matches Ok(m) ==> {
            &&& m@.strategy == builder@.strategy
            &&& m@.fallback == builder@.fallback
            &&& m@.domain_strategies == builder@.domain_strategies
            &&& m@.turns == 0
            &&& forall|d: Seq<char>| !#[trigger] m@.sticky.contains_key(d)
            &&& forall|d: Seq<char>| !#[trigger] m@.sessions.contains_key(d)
            &&& builder@.session_duration matches Some(life) ==> m@.session_life == life
            &&& builder@.session_duration is None ==> m@.session_life == 300_000_000_000
            &&& match builder@.source {
                SourceView::List(list) => m@.default_pool == list,
                SourceView::File(path) => m@.default_pool == texts(
                    reads@[path]->Lines_0@,
                ).filter(|line: Seq<char>| says_something(line)),
                SourceView::Builtin(list) => can_list(list, m@.default_pool),
                SourceView::Nowhere => m@.default_pool.len() == 0,
            }
            &&& forall|d: Seq<char>| #[trigger]
                m@.domain_pools.contains_key(d) == builder@.domain_sources.contains_key(d)
            &&& forall|d: Seq<char>| #[trigger]
                m@.domain_pools.contains_key(d) ==> match builder@.domain_sources[d] {
                    SourceView::List(list) => m@.domain_pools[d] == list,
                    SourceView::File(path) => m@.domain_pools[d] == texts(
                        reads@[path]->Lines_0@,
                    ).filter(|line: Seq<char>| says_something(line)),
                    SourceView::Builtin(list) => can_list(list, m@.domain_pools[d]),
                    SourceView::Nowhere => m@.domain_pools[d].len() == 0,
                }
        },
{
    let files = reads_view(reads@);
    assert forall|path: Seq<char>| reads@.contains_key(path) implies #[trigger] files.contains_key(
        path,
    ) && files[path] == reads@[path]@ by {}
    let reads_well = |source: SourceView|
        source matches SourceView::File(path) ==> reads@.contains_key(path)
            && reads@[path] is Lines;
    assert forall|source: SourceView| #[trigger] reads_well(source) == (load_error(
        source,
        files,
    ) is None) by {
        if let SourceView::File(path) = source {
            if reads@.contains_key(path) {
                assert(files.contains_key(path));
            }
        }
    }
    assert(reads_well(builder@.source) == (load_error(builder@.source, files) is None));
    if forall|d: Seq<char>| #[trigger]
        builder@.domain_sources.contains_key(d) ==> reads_well(builder@.domain_sources[d]) {
        assert(domains_load(builder@, files)) by {
            assert forall|d: Seq<char>| #[trigger]
                builder@.domain_sources.contains_key(d) implies load_error(
                builder@.domain_sources[d],
                files,
            ) is None by {
                assert(reads_well(builder@.domain_sources[d]));
            }
        }
    }
    if domains_load(builder@, files) {
        assert forall|d: Seq<char>| #[trigger]
            builder@.domain_sources.contains_key(d) implies reads_well(
            builder@.domain_sources[d],
        ) by {
            assert(load_error(builder@.domain_sources[d], files) is None);
        }
    }
    if let Ok(m) = r {
        assert(is_built(builder@, files, m@));
        assert forall|d: Seq<char>| #[trigger]
            m@.domain_pools.contains_key(d) == builder@.domain_sources.contains_key(d) by {
            assert(m@.domain_pools.dom().contains(d) == builder@.domain_sources.dom().contains(d));
        }
        if let SourceView::File(path) = builder@.source {
            items_are_what_lines_say(texts(reads@[path]->Lines_0@));
        }
        assert forall|d: Seq<char>| #[trigger] m@.domain_pools.contains_key(d) implies match
        builder@.domain_sources[d] {
            SourceView::List(list) => m@.domain_pools[d] == list,
            SourceView::File(path) => m@.domain_pools[d] == texts(
                reads@[path]->Lines_0@,
            ).filter(|line: Seq<char>| says_something(line)),
            SourceView::Builtin(list) => can_list(list, m@.domain_pools[d]),
            SourceView::Nowhere => m@.domain_pools[d].len() == 0,
        } by {
            assert(builder@.domain_sources.contains_key(d));
            if let SourceView::File(path) = builder@.domain_sources[d] {
                assert(reads_well(builder@.domain_sources[d]));
                items_are_what_lines_say(texts(reads@[path]->Lines_0@));
            }
        }
    }
}

/// The files that have to be read are those of the source and of the domains' own sources, and
/// no others.
pub proof fn files_of_sources_are_needed(
    builder: UserAgentMiddlewareBuilder,
    paths: Vec<String>,
    path: Seq<char>,
)
    requires
        call_ensures(UserAgentMiddlewareBuilder::source_paths, (&builder,), paths),
    ensures
        texts(paths@).contains(path) == (builder@.source == SourceView::File(path) || exists|d:
            Seq<char>| #[trigger]
            builder@.domain_sources.contains_key(d) && builder@.domain_sources[d]
                == SourceView::File(path)),
{
}

/// A setting of a builder is kept until it is set again, and the others stay as they are; what
/// is set for a domain leaves what is set for others.
pub proof fn agent_settings_are_kept(
    builder: UserAgentMiddlewareBuilder,
    source: UserAgentSource,
    strategy: UserAgentRotationStrategy,
    life: Delay,
    fallback: String,
    domain: String,
    with_source: UserAgentMiddlewareBuilder,
    with_strategy: UserAgentMiddlewareBuilder,
    with_life: UserAgentMiddlewareBuilder,
    with_fallback: UserAgentMiddlewareBuilder,
    with_domain_source: UserAgentMiddlewareBuilder,
    with_domain_strategy: UserAgentMiddlewareBuilder,
)
    requires
        call_ensures(UserAgentMiddlewareBuilder::source, (builder, source), with_source),
        call_ensures(UserAgentMiddlewareBuilder::strategy, (builder, strategy), with_strategy),
        call_ensures(UserAgentMiddlewareBuilder::session_duration, (builder, life), with_life),
        call_ensures(
            UserAgentMiddlewareBuilder::fallback_user_agent,
            (builder, fallback),
            with_fallback,
        ),
        call_ensures(
            UserAgentMiddlewareBuilder::per_domain_source,
            (builder, domain, source),
            with_domain_source,
        ),
        call_ensures(
            UserAgentMiddlewareBuilder::per_domain_strategy,
            (builder, domain, strategy),
            with_domain_strategy,
        ),
    ensures
        with_source@ == (AgentSettings { source: source@, ..builder@ }),
        with_strategy@ == (AgentSettings { strategy, ..builder@ }),
        with_life@ == (AgentSettings { session_duration: Some(life@), ..builder@ }),
        with_fallback@ == (AgentSettings { fallback: Some(fallback@), ..builder@ }),
        with_domain_source@.domain_sources.contains_key(domain@),
        with_domain_source@.domain_sources[domain@] == source@,
        forall|d: Seq<char>|
            d != domain@ && builder@.domain_sources.contains_key(d)
                ==> #[trigger] with_domain_source@.domain_sources[d] == builder@.domain_sources[d],
        with_domain_source@.domain_strategies == builder@.domain_strategies,
        with_domain_source@.source == builder@.source,
        with_domain_source@.strategy == builder@.strategy,
        with_domain_source@.fallback == builder@.fallback,
        with_domain_source@.session_duration == builder@.session_duration,
        with_domain_strategy@.domain_strategies.contains_key(domain@),
        with_domain_strategy@.domain_strategies[domain@] == strategy,
        forall|d: Seq<char>|
            d != domain@ && builder@.domain_strategies.contains_key(d)
                ==> #[trigger] with_domain_strategy@.domain_strategies[d]
                == builder@.domain_strategies[d],
        with_domain_strategy@.domain_sources == builder@.domain_sources,
        with_domain_strategy@.source == builder@.source,
        with_domain_strategy@.strategy == builder@.strategy,
        with_domain_strategy@.fallback == builder@.fallback,
        with_domain_strategy@.session_duration == builder@.session_duration,
{
}

/// A builder takes all user agents that are known, by chance, with no fallback and nothing of
/// its own for any domain.
pub proof fn usual_agents(builder: UserAgentMiddlewareBuilder)
    requires
        call_ensures(UserAgentMiddleware::builder, (), builder),
    ensures
        builder@.source == SourceView::Builtin(BuiltinUserAgentList::Random),
        builder@.strategy == UserAgentRotationStrategy::Random,
        builder@.fallback is None,
        builder@.session_duration is None,
        forall|d: Seq<char>| !#[trigger] builder@.domain_sources.contains_key(d),
        forall|d: Seq<char>| !#[trigger] builder@.domain_strategies.contains_key(d),
{
}

proof fn profiles_change_headers_only(
    request: RequestView,
    agent: Seq<char>,
    fields: Seq<(String, String)>,
)
    ensures
        with_profile(request, agent, fields) matches Ok(q) ==> {
            &&& q.url == request.url
            &&& q.method == request.method
            &&& q.body == request.body
            &&& q.meta == request.meta
            &&& is_field_value(agent)
            &&& forall|i: int|
                0 <= i < fields.len() ==> is_field_name((#[trigger] fields[i]).0@)
                    && is_field_value(fields[i].1@)
        },
    decreases fields.len(),
{
    if fields.len() > 0 && with_profile(request, agent, fields) is Ok {
        let front = fields.drop_last();
        profiles_change_headers_only(request, agent, front);
        assert forall|i: int| 0 <= i < fields.len() implies is_field_name(
            (#[trigger] fields[i]).0@,
        ) && is_field_value(fields[i].1@) by {
            if i < front.len() {
                assert(is_field_name(front[i].0@));
            }
        }
    }
}

proof fn other_names_stay(
    request: RequestView,
    agent: Seq<char>,
    fields: Seq<(String, String)>,
    name: Seq<char>,
)
    requires
        with_profile(request, agent, fields) is Ok,
        forall|i: int| 0 <= i < fields.len() ==> lowered((#[trigger] fields[i]).0@) != name,
    ensures
        ({
            let q = with_profile(request, agent, fields)->Ok_0;
            let p = with_agent(request, agent)->Ok_0;
            &&& with_agent(request, agent) is Ok
            &&& q.headers.contains_key(name) == p.headers.contains_key(name)
            &&& q.headers[name] == p.headers[name]
        }),
    decreases fields.len(),
{
    if fields.len() > 0 {
        let front = fields.drop_last();
        assert forall|i: int| 0 <= i < front.len() implies lowered((#[trigger] front[i]).0@)
            != name by {
            assert(front[i] == fields[i]);
        }
        assert(lowered(fields[fields.len() - 1].0@) != name);
        other_names_stay(request, agent, front, name);
    }
}

proof fn fields_reach_the_request(
    request: RequestView,
    agent: Seq<char>,
    fields: Seq<(String, String)>,
    i: int,
)
    requires
        with_profile(request, agent, fields) is Ok,
        0 <= i < fields.len(),
        forall|j: int|
            i < j < fields.len() ==> lowered((#[trigger] fields[j]).0@) != lowered(fields[i].0@),
    ensures
        ({
            let q = with_profile(request, agent, fields)->Ok_0;
            let name = lowered(fields[i].0@);
            q.headers.contains_key(name) && q.headers[name] == seq![encode_utf8(fields[i].1@)]
        }),
    decreases fields.len(),
{
    let front = fields.drop_last();
    if i < front.len() {
        assert(front[i] == fields[i]);
        assert(lowered(fields[fields.len() - 1].0@) != lowered(fields[i].0@));
        assert forall|j: int| i < j < front.len() implies lowered((#[trigger] front[j]).0@)
            != lowered(front[i].0@) by {
            assert(front[j] == fields[j]);
        }
        fields_reach_the_request(request, agent, front, i);
    }
}

/// A profile reaches a request: the request is sent with the profile's user agent and each of
/// its other header fields, its names in lower case and told apart so, and is otherwise as it
/// was. Where the user agent or a field can be none, it is an error.
pub proof fn profiles_reach_the_request(
    request: Request,
    profile: UserAgentProfile,
    r: Result<MiddlewareAction<Request>, SpiderError>,
)
    requires
        call_ensures(apply_profile, (request, &profile), r),
        forall|a: Seq<char>, b: Seq<char>|
            profile.headers@.contains_key(a) && profile.headers@.contains_key(b) && a != b
                ==> #[trigger] lowered(a) != #[trigger] lowered(b),
        forall|a: Seq<char>| #[trigger]
            profile.headers@.contains_key(a) ==> lowered(a) != "user-agent"@,
    ensures
        r is Ok ==> is_field_value(profile.user_agent@) && forall|name: Seq<char>| #[trigger]
            profile.headers@.contains_key(name) ==> is_field_name(name) && is_field_value(
                profile.headers@[name]@,
            ),
        r matches Ok(action) ==> {
            let sent = action->Continue_0@;
            &&& action is Continue
            &&& sent.url == request@.url
            &&& sent.method == request@.method
            &&& sent.body == request@.body
            &&& sent.meta == request@.meta
            &&& sent.headers.contains_key("user-agent"@)
            &&& sent.headers["user-agent"@] == seq![encode_utf8(profile.user_agent@)]
            &&& forall|name: Seq<char>| #[trigger]
                profile.headers@.contains_key(name) ==> sent.headers.contains_key(lowered(name))
                    && sent.headers[lowered(name)] == seq![encode_utf8(profile.headers@[name]@)]
        },
{
    let fields = choose|fields: Seq<(String, String)>| #[trigger]
        are_fields_of(profile, fields) && answer_unless_crowded(
            r,
            with_profile(request@, profile.user_agent@, fields),
            is_field_value(profile.user_agent@) && !has_room_for(request@, fields.len())
                    && is_profile_refused(request@, profile.user_agent@, fields),
        );
    profiles_change_headers_only(request@, profile.user_agent@, fields);
    if r is Ok {
        let sent = r->Ok_0->Continue_0@;
        assert forall|i: int| 0 <= i < fields.len() implies lowered((#[trigger] fields[i]).0@)
            != "user-agent"@ by {
            crate::slots::held_at(fields, i);
            assert(profile.headers@.contains_key(fields[i].0@));
        }
        other_names_stay(request@, profile.user_agent@, fields, "user-agent"@);
        assert forall|name: Seq<char>| #[trigger] profile.headers@.contains_key(name) implies
            is_field_name(name) && is_field_value(profile.headers@[name]@)
            && sent.headers.contains_key(lowered(name)) && sent.headers[lowered(name)]
            == seq![encode_utf8(profile.headers@[name]@)] by {
            let i = held_where(fields, name);
            assert(is_field_name(fields[i].0@));
            assert forall|j: int| i < j < fields.len() implies lowered((#[trigger] fields[j]).0@)
                != lowered(fields[i].0@) by {
                crate::slots::held_at(fields, j);
                assert(profile.headers@.contains_key(fields[j].0@));
                assert(fields[i].0@ != fields[j].0@);
            }
            fields_reach_the_request(request@, profile.user_agent@, fields, i);
        }
    }
}

proof fn good_profiles_are_taken(
    request: RequestView,
    agent: Seq<char>,
    fields: Seq<(String, String)>,
)
    requires
        is_field_value(agent),
        forall|i: int|
            0 <= i < fields.len() ==> is_field_name((#[trigger] fields[i]).0@) && is_field_value(
                fields[i].1@,
            ),
    ensures
        with_profile(request, agent, fields) is Ok,
    decreases fields.len(),
{
    if fields.len() > 0 {
        let front = fields.drop_last();
        assert forall|i: int| 0 <= i < front.len() implies is_field_name(
            (#[trigger] front[i]).0@,
        ) && is_field_value(front[i].1@) by {
            assert(front[i] == fields[i]);
        }
        assert(is_field_name(fields[fields.len() - 1].0@));
        good_profiles_are_taken(request, agent, front);
    }
}

/// A profile whose user agent and other header fields can all be such is taken by a request that
/// has room for them.
pub proof fn profiles_are_taken_where_there_is_room(
    request: Request,
    profile: UserAgentProfile,
    r: Result<MiddlewareAction<Request>, SpiderError>,
)
    requires
        call_ensures(apply_profile, (request, &profile), r),
        is_field_value(profile.user_agent@),
        forall|name: Seq<char>| #[trigger]
            profile.headers@.contains_key(name) ==> is_field_name(name) && is_field_value(
                profile.headers@[name]@,
            ),
        request@.headers.dom().finite(),
        request@.headers.dom().len() + profile.headers@.dom().len() <= 6553,
    ensures
        r is Ok,
{
    let fields = choose|fields: Seq<(String, String)>| #[trigger]
        are_fields_of(profile, fields) && answer_unless_crowded(
            r,
            with_profile(request@, profile.user_agent@, fields),
            is_field_value(profile.user_agent@) && !has_room_for(request@, fields.len())
                && is_profile_refused(request@, profile.user_agent@, fields),
        );
    fields_are_few(fields);
    assert forall|i: int| 0 <= i < fields.len() implies is_field_name((#[trigger] fields[i]).0@)
        && is_field_value(fields[i].1@) by {
        crate::slots::held_at(fields, i);
        assert(profile.headers@.contains_key(fields[i].0@));
    }
    good_profiles_are_taken(request@, profile.user_agent@, fields);
}

/// How a user agent is found goes by the strategy alone, but that one that was chosen before is
/// taken where choices are kept, and the fallback where there is none to choose from.
pub proof fn strategies_decide(
    strategy: UserAgentRotationStrategy,
    kept: bool,
    pool_len: usize,
    turns: usize,
    decision: Decision,
)
    requires
        call_ensures(decide, (strategy, kept, pool_len, turns), decision),
    ensures
        match strategy {
            UserAgentRotationStrategy::Random => decision == if pool_len == 0 {
                Decision::Fallback
            } else {
                Decision::Draw
            },
            UserAgentRotationStrategy::Sequential => {
                &&& pool_len == 0 ==> decision == Decision::Fallback
                &&& pool_len > 0 ==> (decision matches Decision::Turn(place) && place < pool_len
                    && (turns - place) % pool_len as int == 0)
            },
            _ => decision == if kept {
                Decision::Kept
            } else if pool_len == 0 {
                Decision::Fallback
            } else {
                Decision::DrawAndKeep
            },
        },
{
    if pool_len > 0 {
        let n = pool_len as int;
        vstd::arithmetic::div_mod::lemma_mod_bound(turns as int, n);
        vstd::arithmetic::div_mod::lemma_fundamental_div_mod(turns as int, n);
        vstd::arithmetic::div_mod::lemma_mod_multiples_basic(turns as int / n, n);
        assert(turns as int - turns as int % n == (turns as int / n) * n) by (nonlinear_arith)
            requires
                turns as int == n * (turns as int / n) + turns as int % n,
        ;
    }
}

/// What is told of a source is all that it holds.
pub proof fn agent_sources_are_told(source: UserAgentSource)
    ensures
        source matches UserAgentSource::List(list) ==> source@ is List && source@->List_0.len()
            == list@.len() && forall|i: int|
            0 <= i < list@.len() ==> #[trigger] source@->List_0[i] == list@[i]@,
        source matches UserAgentSource::File(path) ==> source@ == SourceView::File(path@),
        source matches UserAgentSource::Builtin(list) ==> source@ == SourceView::Builtin(list),
        source is Nowhere ==> source@ is Nowhere,
{
}

} // verus!
