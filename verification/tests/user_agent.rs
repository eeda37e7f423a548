use spider_middleware::agents::{load_builtin_user_agents, BuiltinUserAgentList};
use spider_middleware::delay::Delay;
use spider_middleware::error::SpiderError;
use spider_middleware::files::FileRead;
use spider_middleware::middleware::MiddlewareAction;
use spider_middleware::request::Request;
use spider_middleware::slots::SlotTable;
use spider_middleware::user_agent::{
    apply_profile, decide, Decision, UserAgentMiddleware, UserAgentMiddlewareBuilder, UserAgentProfile,
    UserAgentRotationStrategy, UserAgentSource,
};
use spider_middleware::weburl::WebUrl;

fn list(items: &[&str]) -> UserAgentSource {
    UserAgentSource::List(items.iter().map(|s| s.to_string()).collect())
}

fn no_files() -> SlotTable<FileRead> {
    SlotTable::new()
}

fn request(url: &str) -> Request {
    Request::new(WebUrl::parse(url).unwrap())
}

fn agent(middleware: &mut UserAgentMiddleware, url: &str) -> Option<String> {
    match middleware.process_request(request(url), Delay::from_secs(0)).unwrap() {
        MiddlewareAction::Continue(request) => {
            request.headers.get("user-agent").map(|v| v.to_str().unwrap().to_string())
        }
        _ => panic!("the request must go on"),
    }
}

fn some(s: &str) -> Option<String> {
    Some(s.to_string())
}

const MANY: [&str; 8] = ["a1", "a2", "a3", "a4", "a5", "a6", "a7", "a8"];

#[test]
fn agents_take_turns() {
    let mut middleware = UserAgentMiddleware::builder()
        .source(list(&["a", "b", "c"]))
        .strategy(UserAgentRotationStrategy::Sequential)
        .build(&no_files())
        .unwrap();
    assert_eq!(middleware.name(), "UserAgentMiddleware");
    let taken: Vec<Option<String>> = (0..5).map(|_| agent(&mut middleware, "http://x.example/")).collect();
    assert_eq!(taken, vec![some("a"), some("b"), some("c"), some("a"), some("b")]);
}

#[test]
fn agents_are_taken_by_chance() {
    let mut middleware = UserAgentMiddleware::builder()
        .source(list(&["a", "b"]))
        .build(&no_files())
        .unwrap();
    let mut seen = [false, false];
    for _ in 0..200 {
        match agent(&mut middleware, "http://x.example/").as_deref() {
            Some("a") => seen[0] = true,
            Some("b") => seen[1] = true,
            other => panic!("{:?}", other),
        }
    }
    assert_eq!(seen, [true, true]);
}

#[test]
fn agents_stay_with_their_domain() {
    let mut middleware = UserAgentMiddleware::builder()
        .source(list(&MANY))
        .strategy(UserAgentRotationStrategy::Sticky)
        .build(&no_files())
        .unwrap();
    let mut firsts = Vec::new();
    for n in 0..20 {
        firsts.push(agent(&mut middleware, &format!("http://x{}.example/", n)));
    }
    for n in 0..20 {
        assert_eq!(agent(&mut middleware, &format!("http://x{}.example/other", n)), firsts[n]);
    }
    assert!(firsts.iter().any(|a| *a != firsts[0]));
}

fn agent_at(middleware: &mut UserAgentMiddleware, secs: u64) -> String {
    match middleware.process_request(request("http://x.example/"), Delay::from_secs(secs)).unwrap() {
        MiddlewareAction::Continue(r) => r.headers["user-agent"].to_str().unwrap().to_string(),
        _ => panic!("the request must go on"),
    }
}

#[test]
fn agents_stay_for_a_session() {
    let many: Vec<String> = (0..1000).map(|n| format!("a{}", n)).collect();
    let build = |life: Option<u64>| {
        let mut builder = UserAgentMiddleware::builder()
            .source(UserAgentSource::List(many.clone()))
            .strategy(UserAgentRotationStrategy::StickySession);
        if let Some(life) = life {
            builder = builder.session_duration(Delay::from_secs(life));
        }
        builder.build(&no_files()).unwrap()
    };
    for (life, secs) in [(Some(1000), 1000), (None, 300)] {
        let mut middleware = build(life);
        let first = agent_at(&mut middleware, 5);
        for at in [5, 6, 100, 4 + secs] {
            assert_eq!(agent_at(&mut middleware, at), first);
        }
        assert_eq!(middleware.session_count(), 1);
        let mut changed = false;
        for round in 1..20 {
            changed = changed || agent_at(&mut middleware, 5 + round * secs) != first;
        }
        assert!(changed);
    }
}

#[test]
fn strategies_of_domains_do_not_take_turns() {
    let mut middleware = UserAgentMiddleware::builder()
        .source(list(&["A", "B"]))
        .strategy(UserAgentRotationStrategy::Sequential)
        .per_domain_source("x.example".to_string(), list(&["S"]))
        .per_domain_strategy("x.example".to_string(), UserAgentRotationStrategy::Sticky)
        .build(&no_files())
        .unwrap();
    assert_eq!(agent(&mut middleware, "http://127.0.0.1/"), some("A"));
    assert_eq!(agent(&mut middleware, "http://x.example/"), some("S"));
    assert_eq!(agent(&mut middleware, "http://127.0.0.1/"), some("B"));
    assert_eq!(middleware.domain_count(), 1);
    assert_eq!(middleware.sticky_count(), 1);
    assert_eq!(middleware.domain_strategy_count(), 1);
    assert_eq!(middleware.pool_size(), 2);
    assert_eq!(middleware.current_index(), 2);
    assert_eq!(middleware.strategy(), UserAgentRotationStrategy::Sequential);
    assert_eq!(middleware.fallback_user_agent(), None);
}

#[test]
fn agents_of_domains_stay_in_force() {
    let mut middleware = UserAgentMiddleware::builder()
        .source(list(&["A"]))
        .per_domain_source("x.example".to_string(), list(&["S"]))
        .build(&no_files())
        .unwrap();
    assert_eq!(agent_at(&mut middleware, 0), "S");
    assert_eq!(agent_at(&mut middleware, 1_000_000), "S");
}

#[test]
fn domains_without_agents_fall_back() {
    let mut middleware = UserAgentMiddleware::builder()
        .source(list(&["A"]))
        .per_domain_source("x.example".to_string(), list(&[]))
        .fallback_user_agent("f".to_string())
        .build(&no_files())
        .unwrap();
    assert_eq!(agent(&mut middleware, "http://x.example/"), some("f"));
    assert_eq!(agent(&mut middleware, "http://y.example/"), some("A"));
}

#[test]
fn drawn_agents_are_taken_where_chance_decides() {
    let build = |strategy| {
        UserAgentMiddleware::builder()
            .source(list(&["A", "B", "C"]))
            .strategy(strategy)
            .build(&no_files())
            .unwrap()
    };
    let now = Delay::from_secs(0);
    let x = Some("x".to_string());
    let mut random = build(UserAgentRotationStrategy::Random);
    assert_eq!(random.choose_agent(&x, now, Some(2)), Some(2));
    let mut turns = build(UserAgentRotationStrategy::Sequential);
    assert_eq!(turns.choose_agent(&x, now, Some(2)), Some(0));
    assert_eq!(turns.choose_agent(&None, now, Some(2)), Some(1));
    let mut sticky = build(UserAgentRotationStrategy::Sticky);
    assert_eq!(sticky.choose_agent(&x, now, Some(2)), Some(2));
    assert_eq!(sticky.choose_agent(&x, now, Some(1)), Some(2));
    assert_eq!(sticky.choose_agent(&None, now, Some(1)), Some(1));
}

#[test]
fn addresses_share_one_name() {
    let mut middleware = UserAgentMiddleware::builder()
        .source(list(&MANY))
        .strategy(UserAgentRotationStrategy::Sticky)
        .build(&no_files())
        .unwrap();
    let first = agent(&mut middleware, "http://127.0.0.1/");
    for n in 1..30 {
        assert_eq!(agent(&mut middleware, &format!("http://127.0.0.{}/", n)), first);
    }
}

#[test]
fn domains_have_agents_and_strategies_of_their_own() {
    let mut middleware = UserAgentMiddleware::builder()
        .source(list(&["a"]))
        .strategy(UserAgentRotationStrategy::Random)
        .per_domain_source("x.example".to_string(), list(&["p", "q"]))
        .per_domain_source("y.example".to_string(), list(&["r"]))
        .per_domain_strategy("x.example".to_string(), UserAgentRotationStrategy::Sequential)
        .build(&no_files())
        .unwrap();
    assert_eq!(agent(&mut middleware, "http://x.example/"), some("p"));
    assert_eq!(agent(&mut middleware, "http://y.example/"), some("r"));
    assert_eq!(agent(&mut middleware, "http://x.example/"), some("q"));
    assert_eq!(agent(&mut middleware, "http://z.example/"), some("a"));
    assert_eq!(agent(&mut middleware, "http://x.example/"), some("p"));
}

#[test]
fn fallbacks_are_sent_where_there_is_no_other() {
    for strategy in [
        UserAgentRotationStrategy::Random,
        UserAgentRotationStrategy::Sequential,
        UserAgentRotationStrategy::Sticky,
        UserAgentRotationStrategy::StickySession,
    ] {
        let mut middleware = UserAgentMiddleware::builder()
            .source(UserAgentSource::Nowhere)
            .strategy(strategy)
            .fallback_user_agent("f".to_string())
            .build(&no_files())
            .unwrap();
        assert_eq!(agent(&mut middleware, "http://x.example/"), some("f"));
        let mut middleware = UserAgentMiddleware::builder()
            .source(list(&[]))
            .strategy(strategy)
            .build(&no_files())
            .unwrap();
        assert_eq!(agent(&mut middleware, "http://x.example/"), None);
    }
}

#[test]
fn agents_that_no_field_can_hold_are_an_error() {
    let mut middleware = UserAgentMiddleware::builder()
        .source(list(&["a\nb"]))
        .build(&no_files())
        .unwrap();
    match middleware.process_request(request("http://x.example/"), Delay::from_secs(0)) {
        Err(SpiderError::HeaderValueError(m)) => {
            assert_eq!(m, "Invalid User-Agent string 'a\nb': failed to parse header value")
        }
        _ => panic!("the request must be refused"),
    }
}

#[test]
fn profiles_bring_their_fields() {
    let mut profile = UserAgentProfile::from("bot".to_string());
    profile.headers = SlotTable::new()
        .with("Accept-Language", "en".to_string())
        .with("x-b", "2".to_string());
    match apply_profile(request("http://x.example/"), &profile).unwrap() {
        MiddlewareAction::Continue(r) => {
            assert_eq!(r.headers["user-agent"], "bot");
            assert_eq!(r.headers["accept-language"], "en");
            assert_eq!(r.headers["x-b"], "2");
            assert_eq!(r.headers.len(), 3);
        }
        _ => panic!("the request must go on"),
    }
}

#[test]
fn profiles_are_made_of_texts() {
    let mut profile = UserAgentProfile::from("bot");
    assert_eq!(profile.user_agent, "bot");
    assert_eq!(profile.headers.len(), 0);
    profile.headers = SlotTable::new().with("x-a", "1".to_string());
    let copy = profile.clone();
    profile.headers = profile.headers.with("x-a", "2".to_string()).with("x-b", "3".to_string());
    assert_eq!(copy.user_agent, "bot");
    assert_eq!(copy.headers.len(), 1);
    assert_eq!(copy.headers.get("x-a"), Some(&"1".to_string()));
    let source = UserAgentSource::List(vec!["bot".to_string()]);
    assert_eq!(source.clone(), source);
    assert_ne!(source, UserAgentSource::default());
}

#[test]
fn profiles_with_wrong_fields_are_an_error() {
    let mut profile = UserAgentProfile::from("bot".to_string());
    profile.headers = SlotTable::new().with("a b", "v".to_string());
    match apply_profile(request("http://x.example/"), &profile) {
        Err(SpiderError::HeaderValueError(m)) => {
            assert_eq!(m, "Invalid header name: invalid HTTP header name")
        }
        _ => panic!("the request must be refused"),
    }
    let expected = http::HeaderName::from_bytes(b"a b").unwrap_err().to_string();
    assert_eq!(expected, "invalid HTTP header name");
    profile.headers = SlotTable::new().with("x-a", "\u{7f}".to_string());
    match apply_profile(request("http://x.example/"), &profile) {
        Err(SpiderError::HeaderValueError(m)) => {
            assert_eq!(m, "Invalid header value for x-a: failed to parse header value")
        }
        _ => panic!("the request must be refused"),
    }
}

#[test]
fn agent_files_are_read() {
    let builder = || {
        UserAgentMiddlewareBuilder::default()
            .source(UserAgentSource::File("one".to_string()))
            .strategy(UserAgentRotationStrategy::Sequential)
            .per_domain_source("x.example".to_string(), UserAgentSource::File("two".to_string()))
    };
    assert_eq!(builder().source_paths(), vec!["one", "two"]);
    let lines = |items: &[&str]| FileRead::Lines(items.iter().map(|s| s.to_string()).collect());
    let both = SlotTable::new().with("one", lines(&["a", " ", "b"])).with("two", lines(&["c"]));
    let mut middleware = builder().build(&both).unwrap();
    assert_eq!(agent(&mut middleware, "http://y.example/"), some("a"));
    assert_eq!(agent(&mut middleware, "http://y.example/"), some("b"));
    assert_eq!(agent(&mut middleware, "http://x.example/"), some("c"));
    let words = |reads: SlotTable<FileRead>| match builder().build(&reads) {
        Err(SpiderError::IoError(m)) => m,
        _ => panic!("the file must be missed"),
    };
    assert_eq!(words(no_files()), "User-agent file not found: one");
    let first = SlotTable::new().with("one", lines(&["a"]));
    assert_eq!(words(first), "User-agent file not found: two");
    let second = SlotTable::new()
        .with("one", lines(&["a"]))
        .with("two", FileRead::Unreadable("locked".to_string()));
    assert_eq!(words(second), "locked");
}

#[test]
fn builtin_lists_are_known() {
    let chrome = load_builtin_user_agents(BuiltinUserAgentList::ChromeLinux);
    assert!(!chrome.is_empty());
    assert_eq!(chrome, ua_generator::ua::chrome_linux_agents().to_vec());
    assert!(chrome.iter().all(|a| a.contains("Chrome") && a.contains("Linux")));
    let firefox = load_builtin_user_agents(BuiltinUserAgentList::FirefoxWindows);
    assert!(firefox.iter().all(|a| a.contains("Firefox") && a.contains("Windows")));
    let all = load_builtin_user_agents(BuiltinUserAgentList::Random);
    assert_eq!(all, *ua_generator::ua::all_static_agents());
    for kind in [
        BuiltinUserAgentList::Chrome,
        BuiltinUserAgentList::ChromeMac,
        BuiltinUserAgentList::ChromeMobile,
        BuiltinUserAgentList::ChromeTablet,
        BuiltinUserAgentList::ChromeWindows,
        BuiltinUserAgentList::Firefox,
        BuiltinUserAgentList::FirefoxLinux,
        BuiltinUserAgentList::FirefoxMac,
        BuiltinUserAgentList::FirefoxMobile,
        BuiltinUserAgentList::FirefoxTablet,
        BuiltinUserAgentList::Safari,
        BuiltinUserAgentList::SafariMac,
        BuiltinUserAgentList::SafariMobile,
        BuiltinUserAgentList::SafariTablet,
    ] {
        assert!(!load_builtin_user_agents(kind).is_empty());
    }
}

#[test]
fn safari_on_windows_is_what_safari_lists_of_windows() {
    let expected: Vec<&str> = ua_generator::ua::safari_agents()
        .iter()
        .copied()
        .filter(|a| a.contains("Windows"))
        .collect();
    assert_eq!(load_builtin_user_agents(BuiltinUserAgentList::SafariWindows), expected);
}

#[test]
fn agents_are_found_by_decision() {
    assert_eq!(decide(UserAgentRotationStrategy::Random, true, 3, 7), Decision::Draw);
    assert_eq!(decide(UserAgentRotationStrategy::Random, false, 0, 7), Decision::Fallback);
    assert_eq!(decide(UserAgentRotationStrategy::Sequential, true, 3, 7), Decision::Turn(1));
    assert_eq!(decide(UserAgentRotationStrategy::Sequential, false, 0, 7), Decision::Fallback);
    assert_eq!(decide(UserAgentRotationStrategy::Sticky, true, 0, 0), Decision::Kept);
    assert_eq!(decide(UserAgentRotationStrategy::Sticky, false, 2, 0), Decision::DrawAndKeep);
    assert_eq!(decide(UserAgentRotationStrategy::Sticky, false, 0, 0), Decision::Fallback);
    assert_eq!(decide(UserAgentRotationStrategy::StickySession, true, 2, 0), Decision::Kept);
    assert_eq!(decide(UserAgentRotationStrategy::StickySession, false, 2, 0), Decision::DrawAndKeep);
}

#[test]
fn agents_have_usual_settings() {
    assert_eq!(UserAgentRotationStrategy::default(), UserAgentRotationStrategy::Random);
    assert!(matches!(
        UserAgentSource::default(),
        UserAgentSource::Builtin(BuiltinUserAgentList::Random)
    ));
    let mut middleware = UserAgentMiddleware::builder().build(&no_files()).unwrap();
    let sent = agent(&mut middleware, "http://x.example/").unwrap();
    assert!(ua_generator::ua::all_static_agents().contains(&sent.as_str()));
}
