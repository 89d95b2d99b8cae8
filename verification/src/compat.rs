//! The frozen contract of the SDK's public surface: APIs, listeners, event
//! orders and error codes, its validation, and the SDK error code each
//! contract error name stands for.
use vstd::prelude::*;

use crate::errors::ErrorCode;
use crate::text::{concat2, ends_with, has_suffix, owned, str_eq};

verus! {

/// The contract fixture.
#[derive(Debug, Clone, PartialEq, Eq)]
pub struct ContractFixture {
    pub version: u32,
    pub source: FixtureSource,
    pub api_contracts: Vec<ApiContract>,
    pub listener_contracts: Vec<ListenerContract>,
    pub event_scenarios: Vec<EventScenario>,
    pub error_contracts: Vec<ErrorContract>,
    pub required_scenarios: Vec<String>,
}

/// Where the fixture was captured.
#[derive(Debug, Clone, PartialEq, Eq)]
pub struct FixtureSource {
    pub go_sdk_root: String,
    pub captured_from: Vec<String>,
}

/// One public API.
#[derive(Debug, Clone, PartialEq, Eq)]
pub struct ApiContract {
    pub name: String,
    pub category: String,
    pub callback: Option<String>,
    pub return_kind: String,
    pub requires_login: bool,
}

/// One listener and its methods.
#[derive(Debug, Clone, PartialEq, Eq)]
pub struct ListenerContract {
    pub name: String,
    pub methods: Vec<String>,
}

/// One event scenario: the events that must come in order, and those that
/// may come too.
#[derive(Debug, Clone, PartialEq, Eq)]
pub struct EventScenario {
    pub name: String,
    pub required_order: Vec<String>,
    pub optional_events: Vec<String>,
}

/// One error code and its category.
#[derive(Debug, Clone, PartialEq, Eq)]
pub struct ErrorContract {
    pub name: String,
    pub code: i32,
    pub category: String,
}

/// The root the fixture must have been captured from ends with this.
pub open spec fn sdk_root_suffix() -> Seq<char> {
    "openim-sdk-core"@
}

/// The first problem of a list of names, scanning in order with the names
/// seen so far: an empty name, or a name seen before.
pub open spec fn scan_names(label: Seq<char>, values: Seq<Seq<char>>, seen: Seq<Seq<char>>) -> Option<
    Seq<char>,
>
    decreases values.len(),
{
    if values.len() == 0 {
        None
    } else if values[0].len() == 0 {
        Some(label + " contains empty value"@)
    } else if seen.contains(values[0]) {
        Some(label + " has duplicate value: "@ + values[0])
    } else {
        scan_names(label, values.drop_first(), seen.push(values[0]))
    }
}

/// What is wrong with a list of names: an empty or repeated name (the first
/// one met), or no name at all.
pub open spec fn names_error(label: Seq<char>, values: Seq<Seq<char>>) -> Option<Seq<char>> {
    match scan_names(label, values, Seq::empty()) {
        Some(e) => Some(e),
        None => if values.len() == 0 {
            Some(label + " list is empty"@)
        } else {
            None
        },
    }
}

/// The error of the fixture's version.
pub open spec fn version_error() -> Seq<char> {
    "fixture version must be 1"@
}

/// The error of the fixture's source root.
pub open spec fn source_root_error() -> Seq<char> {
    "fixture must identify the Go SDK source root"@
}

/// What is wrong with a fixture, in the order the checks run: its version,
/// its source root, then the names of its API contracts, listener contracts,
/// event scenarios and error contracts.
pub open spec fn fixture_error(f: ContractFixture) -> Option<Seq<char>> {
    if f.version != 1 {
        Some(version_error())
    } else if !has_suffix(f.source.go_sdk_root@, sdk_root_suffix()) {
        Some(source_root_error())
    } else if names_error("api contract"@, f.api_contracts@.map_values(|c: ApiContract| c.name@)) is Some {
        names_error("api contract"@, f.api_contracts@.map_values(|c: ApiContract| c.name@))
    } else if names_error(
        "listener contract"@,
        f.listener_contracts@.map_values(|c: ListenerContract| c.name@),
    ) is Some {
        names_error("listener contract"@, f.listener_contracts@.map_values(|c: ListenerContract| c.name@))
    } else if names_error("event scenario"@, f.event_scenarios@.map_values(|c: EventScenario| c.name@))
        is Some {
        names_error("event scenario"@, f.event_scenarios@.map_values(|c: EventScenario| c.name@))
    } else {
        names_error("error contract"@, f.error_contracts@.map_values(|c: ErrorContract| c.name@))
    }
}

/// Whether one of the first `n` values equals `value`.
fn seen_before(values: &Vec<String>, n: usize, value: &str) -> (r: bool)
    requires
        n <= values@.len(),
    ensures
        r == values@.map_values(|s: String| s@).take(n as int).contains(value@),
{
    let ghost all = values@.map_values(|s: String| s@);
    let mut i: usize = 0;
    while i < n
        invariant
            i <= n <= values@.len(),
            all == values@.map_values(|s: String| s@),
            forall|j: int| 0 <= j < i ==> all[j] != value@,
        decreases n - i,
    {
        if str_eq(values[i].as_str(), value) {
            assert(all.take(n as int)[i as int] == value@);
            return true;
        }
        i = i + 1;
    }
    proof {
        if all.take(n as int).contains(value@) {
            let j = choose|j: int| 0 <= j < n && all.take(n as int)[j] == value@;
            assert(all[j] == value@);
        }
    }
    false
}

/// Checks a list of names: each non-empty and none repeated, and at least
/// one; the first problem met is the error.
fn check_names(label: &str, values: &Vec<String>) -> (r: Result<(), String>)
    ensures
        r is Ok <==> names_error(label@, values@.map_values(|s: String| s@)) is None,
        r matches Err(e) ==> names_error(label@, values@.map_values(|s: String| s@)) == Some(e@),
{
    let ghost all = values@.map_values(|s: String| s@);
    let mut i: usize = 0;
    assert(all.skip(0) =~= all);
    assert(all.take(0) =~= Seq::<Seq<char>>::empty());
    while i < values.len()
        invariant
            i <= values@.len(),
            all == values@.map_values(|s: String| s@),
            scan_names(label@, all, Seq::empty()) == scan_names(label@, all.skip(i as int), all.take(i as int)),
        decreases values.len() - i,
    {
        let v = &values[i];
        assert(all.skip(i as int)[0] == v@);
        assert(all.skip(i as int).drop_first() =~= all.skip(i + 1));
        if v.as_str().is_empty() {
            return Err(concat2(label, " contains empty value"));
        }
        if seen_before(values, i, v.as_str()) {
            let mut message = concat2(label, " has duplicate value: ");
            message.append(v.as_str());
            return Err(message);
        }
        proof {
            assert(all.take(i + 1) =~= all.take(i as int).push(v@));
        }
        i = i + 1;
    }
    assert(all.skip(i as int) =~= Seq::<Seq<char>>::empty());
    if values.len() == 0 {
        return Err(concat2(label, " list is empty"));
    }
    Ok(())
}

/// Checks a fixture: version 1, captured from the SDK's source root, and
/// the names of its API contracts, listener contracts, event scenarios and
/// error contracts each non-empty, unique and present; the first problem is
/// the error.
pub fn validate_fixture(fixture: &ContractFixture) -> (r: Result<(), String>)
    ensures
        r is Ok <==> fixture_error(*fixture) is None,
        r matches Err(e) ==> fixture_error(*fixture) == Some(e@),
{
    if fixture.version != 1 {
        return Err(owned("fixture version must be 1"));
    }
    if !ends_with(fixture.source.go_sdk_root.as_str(), "openim-sdk-core") {
        return Err(owned("fixture must identify the Go SDK source root"));
    }
    let mut names: Vec<String> = Vec::new();
    let mut i: usize = 0;
    while i < fixture.api_contracts.len()
        invariant
            i <= fixture.api_contracts@.len(),
            names@.map_values(|s: String| s@) == fixture.api_contracts@.take(i as int).map_values(
                |c: ApiContract| c.name@,
            ),
        decreases fixture.api_contracts.len() - i,
    {
        let ghost prev = names@;
        let name = fixture.api_contracts[i].name.clone();
        assert(name@ == fixture.api_contracts@[i as int].name@);
        names.push(name);
        proof {
            assert(names@ == prev.push(name));
            assert(names@.map_values(|s: String| s@) =~= prev.map_values(|s: String| s@).push(name@));
            assert(fixture.api_contracts@.take(i + 1) =~= fixture.api_contracts@.take(i as int).push(
                fixture.api_contracts@[i as int],
            ));
            assert(names@.map_values(|s: String| s@) =~= fixture.api_contracts@.take(i + 1).map_values(
                |c: ApiContract| c.name@,
            ));
        }
        i = i + 1;
    }
    assert(fixture.api_contracts@.take(i as int) =~= fixture.api_contracts@);
    check_names("api contract", &names)?;
    let mut names: Vec<String> = Vec::new();
    let mut i: usize = 0;
    while i < fixture.listener_contracts.len()
        invariant
            i <= fixture.listener_contracts@.len(),
            names@.map_values(|s: String| s@) == fixture.listener_contracts@.take(i as int).map_values(
                |c: ListenerContract| c.name@,
            ),
        decreases fixture.listener_contracts.len() - i,
    {
        let ghost prev = names@;
        let name = fixture.listener_contracts[i].name.clone();
        assert(name@ == fixture.listener_contracts@[i as int].name@);
        names.push(name);
        proof {
            assert(names@ == prev.push(name));
            assert(names@.map_values(|s: String| s@) =~= prev.map_values(|s: String| s@).push(name@));
            assert(fixture.listener_contracts@.take(i + 1) =~= fixture.listener_contracts@.take(
                i as int,
            ).push(fixture.listener_contracts@[i as int]));
            assert(names@.map_values(|s: String| s@) =~= fixture.listener_contracts@.take(
                i + 1,
            ).map_values(|c: ListenerContract| c.name@));
        }
        i = i + 1;
    }
    assert(fixture.listener_contracts@.take(i as int) =~= fixture.listener_contracts@);
    check_names("listener contract", &names)?;
    let mut names: Vec<String> = Vec::new();
    let mut i: usize = 0;
    while i < fixture.event_scenarios.len()
        invariant
            i <= fixture.event_scenarios@.len(),
            names@.map_values(|s: String| s@) == fixture.event_scenarios@.take(i as int).map_values(
                |c: EventScenario| c.name@,
            ),
        decreases fixture.event_scenarios.len() - i,
    {
        let ghost prev = names@;
        let name = fixture.event_scenarios[i].name.clone();
        assert(name@ == fixture.event_scenarios@[i as int].name@);
        names.push(name);
        proof {
            assert(names@ == prev.push(name));
            assert(names@.map_values(|s: String| s@) =~= prev.map_values(|s: String| s@).push(name@));
            assert(fixture.event_scenarios@.take(i + 1) =~= fixture.event_scenarios@.take(
                i as int,
            ).push(fixture.event_scenarios@[i as int]));
            assert(names@.map_values(|s: String| s@) =~= fixture.event_scenarios@.take(
                i + 1,
            ).map_values(|c: EventScenario| c.name@));
        }
        i = i + 1;
    }
    assert(fixture.event_scenarios@.take(i as int) =~= fixture.event_scenarios@);
    check_names("event scenario", &names)?;
    let mut names: Vec<String> = Vec::new();
    let mut i: usize = 0;
    while i < fixture.error_contracts.len()
        invariant
            i <= fixture.error_contracts@.len(),
            names@.map_values(|s: String| s@) == fixture.error_contracts@.take(i as int).map_values(
                |c: ErrorContract| c.name@,
            ),
        decreases fixture.error_contracts.len() - i,
    {
        let ghost prev = names@;
        let name = fixture.error_contracts[i].name.clone();
        assert(name@ == fixture.error_contracts@[i as int].name@);
        names.push(name);
        proof {
            assert(names@ == prev.push(name));
            assert(names@.map_values(|s: String| s@) =~= prev.map_values(|s: String| s@).push(name@));
            assert(fixture.error_contracts@.take(i + 1) =~= fixture.error_contracts@.take(
                i as int,
            ).push(fixture.error_contracts@[i as int]));
            assert(names@.map_values(|s: String| s@) =~= fixture.error_contracts@.take(
                i + 1,
            ).map_values(|c: ErrorContract| c.name@));
        }
        i = i + 1;
    }
    assert(fixture.error_contracts@.take(i as int) =~= fixture.error_contracts@);
    check_names("error contract", &names)
}

/// The SDK error code that an error name of the contract stands for.
pub open spec fn code_of_error_name(name: Seq<char>) -> Option<i32> {
    if name == "NetworkError"@ {
        Some(10000)
    } else if name == "NetworkTimeoutError"@ {
        Some(10001)
    } else if name == "ArgsError"@ {
        Some(10002)
    } else if name == "CtxDeadlineExceededError"@ {
        Some(10003)
    } else if name == "UnknownCode"@ {
        Some(10005)
    } else if name == "SdkInternalError"@ {
        Some(10006)
    } else if name == "NoUpdateError"@ {
        Some(10007)
    } else if name == "SDKNotInitError"@ {
        Some(10008)
    } else if name == "SDKNotLoginError"@ {
        Some(10009)
    } else if name == "UserIDNotFoundError"@ {
        Some(10100)
    } else if name == "LoginOutError"@ {
        Some(10101)
    } else if name == "LoginRepeatError"@ {
        Some(10102)
    } else if name == "FileNotFoundError"@ {
        Some(10200)
    } else if name == "MsgDeCompressionError"@ {
        Some(10201)
    } else if name == "MsgDecodeBinaryWsError"@ {
        Some(10202)
    } else if name == "MsgBinaryTypeNotSupportError"@ {
        Some(10203)
    } else if name == "MsgRepeatError"@ {
        Some(10204)
    } else if name == "MsgContentTypeNotSupportError"@ {
        Some(10205)
    } else if name == "MsgHasNoSeqError"@ {
        Some(10206)
    } else if name == "MsgHasDeletedError"@ {
        Some(10207)
    } else if name == "NotSupportOptError"@ {
        Some(10301)
    } else if name == "NotSupportTypeError"@ {
        Some(10302)
    } else if name == "UnreadCountError"@ {
        Some(10303)
    } else if name == "GroupIDNotFoundError"@ {
        Some(10400)
    } else if name == "GroupTypeErr"@ {
        Some(10401)
    } else {
        None
    }
}

/// The SDK error code that an error name of the contract stands for, if
/// the name is one of the SDK's.
pub fn rust_error_code(name: &str) -> (r: Option<ErrorCode>)
    ensures
        r is None <==> code_of_error_name(name@) is None,
        r matches Some(c) ==> code_of_error_name(name@) == Some(c.0),
{
    if str_eq(name, "NetworkError") {
        Some(ErrorCode(10000))
    } else if str_eq(name, "NetworkTimeoutError") {
        Some(ErrorCode(10001))
    } else if str_eq(name, "ArgsError") {
        Some(ErrorCode(10002))
    } else if str_eq(name, "CtxDeadlineExceededError") {
        Some(ErrorCode(10003))
    } else if str_eq(name, "UnknownCode") {
        Some(ErrorCode(10005))
    } else if str_eq(name, "SdkInternalError") {
        Some(ErrorCode(10006))
    } else if str_eq(name, "NoUpdateError") {
        Some(ErrorCode(10007))
    } else if str_eq(name, "SDKNotInitError") {
        Some(ErrorCode(10008))
    } else if str_eq(name, "SDKNotLoginError") {
        Some(ErrorCode(10009))
    } else if str_eq(name, "UserIDNotFoundError") {
        Some(ErrorCode(10100))
    } else if str_eq(name, "LoginOutError") {
        Some(ErrorCode(10101))
    } else if str_eq(name, "LoginRepeatError") {
        Some(ErrorCode(10102))
    } else if str_eq(name, "FileNotFoundError") {
        Some(ErrorCode(10200))
    } else if str_eq(name, "MsgDeCompressionError") {
        Some(ErrorCode(10201))
    } else if str_eq(name, "MsgDecodeBinaryWsError") {
        Some(ErrorCode(10202))
    } else if str_eq(name, "MsgBinaryTypeNotSupportError") {
        Some(ErrorCode(10203))
    } else if str_eq(name, "MsgRepeatError") {
        Some(ErrorCode(10204))
    } else if str_eq(name, "MsgContentTypeNotSupportError") {
        Some(ErrorCode(10205))
    } else if str_eq(name, "MsgHasNoSeqError") {
        Some(ErrorCode(10206))
    } else if str_eq(name, "MsgHasDeletedError") {
        Some(ErrorCode(10207))
    } else if str_eq(name, "NotSupportOptError") {
        Some(ErrorCode(10301))
    } else if str_eq(name, "NotSupportTypeError") {
        Some(ErrorCode(10302))
    } else if str_eq(name, "UnreadCountError") {
        Some(ErrorCode(10303))
    } else if str_eq(name, "GroupIDNotFoundError") {
        Some(ErrorCode(10400))
    } else if str_eq(name, "GroupTypeErr") {
        Some(ErrorCode(10401))
    } else {
        None
    }
}

} // verus!
