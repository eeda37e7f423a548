//! User agents that are known beforehand.
use vstd::prelude::*;

use crate::text::{contains, has_part, texts};

verus! {

/// Texts, taken by their views.
pub open spec fn str_texts(list: Seq<&'static str>) -> Seq<Seq<char>> {
    list.map_values(|s: &'static str| s@)
}

/// `ua_generator::ua::chrome_agents`: some list. What is in it depends on how
/// that crate was built.
pub assume_specification[ ua_generator::ua::chrome_agents ]() -> (r: &'static [&'static str]);

/// `ua_generator::ua::chrome_linux_agents`: some list. What is in it depends on how
/// that crate was built.
pub assume_specification[ ua_generator::ua::chrome_linux_agents ]() -> (r: &'static [&'static str]);

/// `ua_generator::ua::chrome_mac_agents`: some list. What is in it depends on how
/// that crate was built.
pub assume_specification[ ua_generator::ua::chrome_mac_agents ]() -> (r: &'static [&'static str]);

/// `ua_generator::ua::chrome_mobile_agents`: some list. What is in it depends on how
/// that crate was built.
pub assume_specification[ ua_generator::ua::chrome_mobile_agents ]() -> (r: &'static [&'static str]);

/// `ua_generator::ua::chrome_tablet_agents`: some list. What is in it depends on how
/// that crate was built.
pub assume_specification[ ua_generator::ua::chrome_tablet_agents ]() -> (r: &'static [&'static str]);

/// `ua_generator::ua::chrome_windows_agents`: some list. What is in it depends on how
/// that crate was built.
pub assume_specification[ ua_generator::ua::chrome_windows_agents ]() -> (r: &'static [&'static str]);

/// `ua_generator::ua::firefox_agents`: some list. What is in it depends on how
/// that crate was built.
pub assume_specification[ ua_generator::ua::firefox_agents ]() -> (r: &'static [&'static str]);

/// `ua_generator::ua::firefox_linux_agents`: some list. What is in it depends on how
/// that crate was built.
pub assume_specification[ ua_generator::ua::firefox_linux_agents ]() -> (r: &'static [&'static str]);

/// `ua_generator::ua::firefox_mac_agents`: some list. What is in it depends on how
/// that crate was built.
pub assume_specification[ ua_generator::ua::firefox_mac_agents ]() -> (r: &'static [&'static str]);

/// `ua_generator::ua::firefox_mobile_agents`: some list. What is in it depends on how
/// that crate was built.
pub assume_specification[ ua_generator::ua::firefox_mobile_agents ]() -> (r: &'static [&'static str]);

/// `ua_generator::ua::firefox_tablet_agents`: some list. What is in it depends on how
/// that crate was built.
pub assume_specification[ ua_generator::ua::firefox_tablet_agents ]() -> (r: &'static [&'static str]);

/// `ua_generator::ua::firefox_windows_agents`: some list. What is in it depends on how
/// that crate was built.
pub assume_specification[ ua_generator::ua::firefox_windows_agents ]() -> (r: &'static [&'static str]);

/// `ua_generator::ua::safari_agents`: some list. What is in it depends on how
/// that crate was built.
pub assume_specification[ ua_generator::ua::safari_agents ]() -> (r: &'static [&'static str]);

/// `ua_generator::ua::safari_mac_agents`: some list. What is in it depends on how
/// that crate was built.
pub assume_specification[ ua_generator::ua::safari_mac_agents ]() -> (r: &'static [&'static str]);

/// `ua_generator::ua::safari_mobile_agents`: some list. What is in it depends on how
/// that crate was built.
pub assume_specification[ ua_generator::ua::safari_mobile_agents ]() -> (r: &'static [&'static str]);

/// `ua_generator::ua::safari_tablet_agents`: some list. What is in it depends on how
/// that crate was built.
pub assume_specification[ ua_generator::ua::safari_tablet_agents ]() -> (r: &'static [&'static str]);

/// `ua_generator::ua::all_static_agents`: some list. What is in it depends on how
/// that crate was built.
pub assume_specification[ ua_generator::ua::all_static_agents ]() -> (r: &'static Vec<&'static str>);

/// Lists of user agents that are known beforehand.
#[derive(Debug, Clone, Copy, PartialEq, Eq, Structural)]
pub enum BuiltinUserAgentList {
    /// Chrome.
    Chrome,
    /// Chrome on Linux.
    ChromeLinux,
    /// Chrome on Mac.
    ChromeMac,
    /// Chrome on phones.
    ChromeMobile,
    /// Chrome on tablets.
    ChromeTablet,
    /// Chrome on Windows.
    ChromeWindows,
    /// Firefox.
    Firefox,
    /// Firefox on Linux.
    FirefoxLinux,
    /// Firefox on Mac.
    FirefoxMac,
    /// Firefox on phones.
    FirefoxMobile,
    /// Firefox on tablets.
    FirefoxTablet,
    /// Firefox on Windows.
    FirefoxWindows,
    /// Safari.
    Safari,
    /// Safari on Mac.
    SafariMac,
    /// Safari on phones.
    SafariMobile,
    /// Safari on tablets.
    SafariTablet,
    /// Safari on Windows: those of Safari that name Windows. There may be none.
    SafariWindows,
    /// All of them.
    Random,
}

/// The texts that hold a part.
pub open spec fn with_part(list: Seq<Seq<char>>, part: Seq<char>) -> Seq<Seq<char>>
    decreases list.len(),
{
    if list.len() == 0 {
        Seq::empty()
    } else if has_part(list.last(), part) {
        with_part(list.drop_last(), part).push(list.last())
    } else {
        with_part(list.drop_last(), part)
    }
}

/// Whether user agents can be those of a list: a call of the list's function in
/// `ua_generator::ua` gives them.
pub open spec fn can_list(list: BuiltinUserAgentList, agents: Seq<Seq<char>>) -> bool {
    match list {
        BuiltinUserAgentList::Chrome => exists|r: &'static [&'static str]|
            call_ensures(ua_generator::ua::chrome_agents, (), r) && #[trigger] str_texts(r@)
                == agents,
        BuiltinUserAgentList::ChromeLinux => exists|r: &'static [&'static str]|
            call_ensures(ua_generator::ua::chrome_linux_agents, (), r) && #[trigger] str_texts(r@)
                == agents,
        BuiltinUserAgentList::ChromeMac => exists|r: &'static [&'static str]|
            call_ensures(ua_generator::ua::chrome_mac_agents, (), r) && #[trigger] str_texts(r@)
                == agents,
        BuiltinUserAgentList::ChromeMobile => exists|r: &'static [&'static str]|
            call_ensures(ua_generator::ua::chrome_mobile_agents, (), r) && #[trigger] str_texts(r@)
                == agents,
        BuiltinUserAgentList::ChromeTablet => exists|r: &'static [&'static str]|
            call_ensures(ua_generator::ua::chrome_tablet_agents, (), r) && #[trigger] str_texts(r@)
                == agents,
        BuiltinUserAgentList::ChromeWindows => exists|r: &'static [&'static str]|
            call_ensures(ua_generator::ua::chrome_windows_agents, (), r) && #[trigger] str_texts(r@)
                == agents,
        BuiltinUserAgentList::Firefox => exists|r: &'static [&'static str]|
            call_ensures(ua_generator::ua::firefox_agents, (), r) && #[trigger] str_texts(r@)
                == agents,
        BuiltinUserAgentList::FirefoxLinux => exists|r: &'static [&'static str]|
            call_ensures(ua_generator::ua::firefox_linux_agents, (), r) && #[trigger] str_texts(r@)
                == agents,
        BuiltinUserAgentList::FirefoxMac => exists|r: &'static [&'static str]|
            call_ensures(ua_generator::ua::firefox_mac_agents, (), r) && #[trigger] str_texts(r@)
                == agents,
        BuiltinUserAgentList::FirefoxMobile => exists|r: &'static [&'static str]|
            call_ensures(ua_generator::ua::firefox_mobile_agents, (), r) && #[trigger] str_texts(r@)
                == agents,
        BuiltinUserAgentList::FirefoxTablet => exists|r: &'static [&'static str]|
            call_ensures(ua_generator::ua::firefox_tablet_agents, (), r) && #[trigger] str_texts(r@)
                == agents,
        BuiltinUserAgentList::FirefoxWindows => exists|r: &'static [&'static str]|
            call_ensures(ua_generator::ua::firefox_windows_agents, (), r) && #[trigger] str_texts(r@)
                == agents,
        BuiltinUserAgentList::Safari => exists|r: &'static [&'static str]|
            call_ensures(ua_generator::ua::safari_agents, (), r) && #[trigger] str_texts(r@)
                == agents,
        BuiltinUserAgentList::SafariMac => exists|r: &'static [&'static str]|
            call_ensures(ua_generator::ua::safari_mac_agents, (), r) && #[trigger] str_texts(r@)
                == agents,
        BuiltinUserAgentList::SafariMobile => exists|r: &'static [&'static str]|
            call_ensures(ua_generator::ua::safari_mobile_agents, (), r) && #[trigger] str_texts(r@)
                == agents,
        BuiltinUserAgentList::SafariTablet => exists|r: &'static [&'static str]|
            call_ensures(ua_generator::ua::safari_tablet_agents, (), r) && #[trigger] str_texts(r@)
                == agents,
        BuiltinUserAgentList::SafariWindows => exists|r: &'static [&'static str]|
            call_ensures(ua_generator::ua::safari_agents, (), r) && with_part(
                #[trigger] str_texts(r@),
                "Windows"@,
            ) == agents,
        BuiltinUserAgentList::Random => exists|r: &'static Vec<&'static str>|
            call_ensures(ua_generator::ua::all_static_agents, (), r) && #[trigger] str_texts(r@)
                == agents,
    }
}

/// Texts of their own.
fn owned(list: &'static [&'static str]) -> (r: Vec<String>)
    ensures
        texts(r@) == str_texts(list@),
{
    let mut r: Vec<String> = Vec::new();
    let mut i: usize = 0;
    assert(texts(r@) =~= str_texts(list@).take(0));
    while i < list.len()
        invariant
            i <= list.len(),
            texts(r@) == str_texts(list@).take(i as int),
        decreases list.len() - i,
    {
        let ghost before = texts(r@);
        let text = list[i].to_owned();
        r.push(text);
        assert(texts(r@) =~= before.push(list@[i as int]@));
        assert(texts(r@) =~= str_texts(list@).take(i + 1));
        i += 1;
    }
    assert(str_texts(list@).take(i as int) =~= str_texts(list@));
    r
}

/// The texts that hold a part.
fn holding(list: &Vec<String>, part: &str) -> (r: Vec<String>)
    ensures
        texts(r@) == with_part(texts(list@), part@),
{
    let mut r: Vec<String> = Vec::new();
    let mut i: usize = 0;
    assert(texts(list@).take(0) =~= Seq::empty());
    assert(texts(r@) =~= Seq::empty());
    while i < list.len()
        invariant
            i <= list.len(),
            texts(r@) == with_part(texts(list@).take(i as int), part@),
        decreases list.len() - i,
    {
        let ghost all = texts(list@);
        assert(all.take(i + 1).drop_last() =~= all.take(i as int));
        assert(all.take(i + 1).last() == list@[i as int]@);
        if contains(list[i].as_str(), part) {
            let ghost before = texts(r@);
            r.push(list[i].clone());
            assert(texts(r@) =~= before.push(list@[i as int]@));
        }
        i += 1;
    }
    assert(texts(list@).take(i as int) =~= texts(list@));
    r
}

/// The user agents of a list.
pub fn load_builtin_user_agents(list: BuiltinUserAgentList) -> (r: Vec<String>)
    ensures
        can_list(list, texts(r@)),
{
    match list {
        BuiltinUserAgentList::Chrome => owned(ua_generator::ua::chrome_agents()),
        BuiltinUserAgentList::ChromeLinux => owned(ua_generator::ua::chrome_linux_agents()),
        BuiltinUserAgentList::ChromeMac => owned(ua_generator::ua::chrome_mac_agents()),
        BuiltinUserAgentList::ChromeMobile => owned(ua_generator::ua::chrome_mobile_agents()),
        BuiltinUserAgentList::ChromeTablet => owned(ua_generator::ua::chrome_tablet_agents()),
        BuiltinUserAgentList::ChromeWindows => owned(ua_generator::ua::chrome_windows_agents()),
        BuiltinUserAgentList::Firefox => owned(ua_generator::ua::firefox_agents()),
        BuiltinUserAgentList::FirefoxLinux => owned(ua_generator::ua::firefox_linux_agents()),
        BuiltinUserAgentList::FirefoxMac => owned(ua_generator::ua::firefox_mac_agents()),
        BuiltinUserAgentList::FirefoxMobile => owned(ua_generator::ua::firefox_mobile_agents()),
        BuiltinUserAgentList::FirefoxTablet => owned(ua_generator::ua::firefox_tablet_agents()),
        BuiltinUserAgentList::FirefoxWindows => owned(ua_generator::ua::firefox_windows_agents()),
        BuiltinUserAgentList::Safari => owned(ua_generator::ua::safari_agents()),
        BuiltinUserAgentList::SafariMac => owned(ua_generator::ua::safari_mac_agents()),
        BuiltinUserAgentList::SafariMobile => owned(ua_generator::ua::safari_mobile_agents()),
        BuiltinUserAgentList::SafariTablet => owned(ua_generator::ua::safari_tablet_agents()),
        BuiltinUserAgentList::SafariWindows => {
            let safari = ua_generator::ua::safari_agents();
            holding(&owned(safari), "Windows")
        },
        BuiltinUserAgentList::Random => {
            let all = ua_generator::ua::all_static_agents();
            owned(all.as_slice())
        },
    }
}

/// The texts that hold a part are those of a list in which it stands somewhere, in their order.
pub proof fn parts_are_filtered(list: Seq<Seq<char>>, part: Seq<char>)
    ensures
        with_part(list, part) == list.filter(|text: Seq<char>| has_part(text, part)),
    decreases list.len(),
{
    reveal(Seq::filter);
    if list.len() > 0 {
        parts_are_filtered(list.drop_last(), part);
    } else {
        assert(list.filter(|text: Seq<char>| has_part(text, part)) =~= Seq::empty());
    }
}

/// The user agents of a list are those that the function of its name gives, all of them and in
/// their order; those of Safari on Windows are the ones of Safari that name Windows, and those
/// of no list in particular all that are known.
pub proof fn lists_come_from_their_functions(list: BuiltinUserAgentList, r: Vec<String>)
    requires
        call_ensures(load_builtin_user_agents, (list,), r),
    ensures
        list == BuiltinUserAgentList::Chrome ==> exists|all: &'static [&'static str]|
            call_ensures(ua_generator::ua::chrome_agents, (), all) && #[trigger] str_texts(all@)
                == texts(r@),
        list == BuiltinUserAgentList::ChromeLinux ==> exists|all: &'static [&'static str]|
            call_ensures(ua_generator::ua::chrome_linux_agents, (), all) && #[trigger] str_texts(all@)
                == texts(r@),
        list == BuiltinUserAgentList::ChromeMac ==> exists|all: &'static [&'static str]|
            call_ensures(ua_generator::ua::chrome_mac_agents, (), all) && #[trigger] str_texts(all@)
                == texts(r@),
        list == BuiltinUserAgentList::ChromeMobile ==> exists|all: &'static [&'static str]|
            call_ensures(ua_generator::ua::chrome_mobile_agents, (), all) && #[trigger] str_texts(all@)
                == texts(r@),
        list == BuiltinUserAgentList::ChromeTablet ==> exists|all: &'static [&'static str]|
            call_ensures(ua_generator::ua::chrome_tablet_agents, (), all) && #[trigger] str_texts(all@)
                == texts(r@),
        list == BuiltinUserAgentList::ChromeWindows ==> exists|all: &'static [&'static str]|
            call_ensures(ua_generator::ua::chrome_windows_agents, (), all) && #[trigger] str_texts(all@)
                == texts(r@),
        list == BuiltinUserAgentList::Firefox ==> exists|all: &'static [&'static str]|
            call_ensures(ua_generator::ua::firefox_agents, (), all) && #[trigger] str_texts(all@)
                == texts(r@),
        list == BuiltinUserAgentList::FirefoxLinux ==> exists|all: &'static [&'static str]|
            call_ensures(ua_generator::ua::firefox_linux_agents, (), all) && #[trigger] str_texts(all@)
                == texts(r@),
        list == BuiltinUserAgentList::FirefoxMac ==> exists|all: &'static [&'static str]|
            call_ensures(ua_generator::ua::firefox_mac_agents, (), all) && #[trigger] str_texts(all@)
                == texts(r@),
        list == BuiltinUserAgentList::FirefoxMobile ==> exists|all: &'static [&'static str]|
            call_ensures(ua_generator::ua::firefox_mobile_agents, (), all) && #[trigger] str_texts(all@)
                == texts(r@),
        list == BuiltinUserAgentList::FirefoxTablet ==> exists|all: &'static [&'static str]|
            call_ensures(ua_generator::ua::firefox_tablet_agents, (), all) && #[trigger] str_texts(all@)
                == texts(r@),
        list == BuiltinUserAgentList::FirefoxWindows ==> exists|all: &'static [&'static str]|
            call_ensures(ua_generator::ua::firefox_windows_agents, (), all) && #[trigger] str_texts(all@)
                == texts(r@),
        list == BuiltinUserAgentList::Safari ==> exists|all: &'static [&'static str]|
            call_ensures(ua_generator::ua::safari_agents, (), all) && #[trigger] str_texts(all@)
                == texts(r@),
        list == BuiltinUserAgentList::SafariMac ==> exists|all: &'static [&'static str]|
            call_ensures(ua_generator::ua::safari_mac_agents, (), all) && #[trigger] str_texts(all@)
                == texts(r@),
        list == BuiltinUserAgentList::SafariMobile ==> exists|all: &'static [&'static str]|
            call_ensures(ua_generator::ua::safari_mobile_agents, (), all) && #[trigger] str_texts(all@)
                == texts(r@),
        list == BuiltinUserAgentList::SafariTablet ==> exists|all: &'static [&'static str]|
            call_ensures(ua_generator::ua::safari_tablet_agents, (), all) && #[trigger] str_texts(all@)
                == texts(r@),
        list == BuiltinUserAgentList::SafariWindows ==> exists|all: &'static [&'static str]|
            call_ensures(ua_generator::ua::safari_agents, (), all) && (#[trigger] str_texts(
                all@,
            )).filter(|text: Seq<char>| has_part(text, "Windows"@)) == texts(r@),
        list == BuiltinUserAgentList::Random ==> exists|all: &'static Vec<&'static str>|
            call_ensures(ua_generator::ua::all_static_agents, (), all) && #[trigger] str_texts(
                all@,
            ) == texts(r@),
{
    if list == BuiltinUserAgentList::SafariWindows {
        let all = choose|all: &'static [&'static str]|
            call_ensures(ua_generator::ua::safari_agents, (), all) && with_part(
                #[trigger] str_texts(all@),
                "Windows"@,
            ) == texts(r@);
        parts_are_filtered(str_texts(all@), "Windows"@);
    }
}

} // verus!
