use openim::compat::{
    rust_error_code, validate_fixture, ApiContract, ContractFixture, ErrorContract, EventScenario,
    FixtureSource, ListenerContract,
};
use openim::errors::ErrorCode;

fn api(name: &str) -> ApiContract {
    ApiContract {
        name: name.to_string(),
        category: "session".to_string(),
        callback: None,
        return_kind: "void".to_string(),
        requires_login: false,
    }
}

fn fixture() -> ContractFixture {
    ContractFixture {
        version: 1,
        source: FixtureSource {
            go_sdk_root: "/src/openim-sdk-core".to_string(),
            captured_from: vec!["open_im_sdk/init_login.go".to_string()],
        },
        api_contracts: vec![api("InitSDK"), api("Login"), api("Logout")],
        listener_contracts: vec![ListenerContract {
            name: "OnConnListener".to_string(),
            methods: vec!["OnConnecting".to_string()],
        }],
        event_scenarios: vec![EventScenario {
            name: "login_sync_message".to_string(),
            required_order: vec!["OnConnecting".to_string(), "OnConnectSuccess".to_string()],
            optional_events: Vec::new(),
        }],
        error_contracts: vec![ErrorContract {
            name: "NetworkError".to_string(),
            code: 10000,
            category: "common".to_string(),
        }],
        required_scenarios: vec!["login_sync_message".to_string()],
    }
}

#[test]
fn well_formed_fixture_passes_validation() {
    assert_eq!(validate_fixture(&fixture()), Ok(()));
}

#[test]
fn fixture_problems_are_reported_in_check_order() {
    let mut f = fixture();
    f.version = 2;
    assert_eq!(validate_fixture(&f), Err("fixture version must be 1".to_string()));

    let mut f = fixture();
    f.source.go_sdk_root = "/src/other".to_string();
    assert_eq!(
        validate_fixture(&f),
        Err("fixture must identify the Go SDK source root".to_string())
    );

    let mut f = fixture();
    f.api_contracts.push(api("Login"));
    assert_eq!(
        validate_fixture(&f),
        Err("api contract has duplicate value: Login".to_string())
    );

    let mut f = fixture();
    f.listener_contracts[0].name = String::new();
    assert_eq!(
        validate_fixture(&f),
        Err("listener contract contains empty value".to_string())
    );

    let mut f = fixture();
    f.error_contracts.clear();
    assert_eq!(
        validate_fixture(&f),
        Err("error contract list is empty".to_string())
    );
}

#[test]
fn go_error_names_map_to_sdk_codes() {
    assert_eq!(rust_error_code("NetworkError"), Some(ErrorCode::network()));
    assert_eq!(rust_error_code("GroupTypeErr"), Some(ErrorCode::group_type()));
    assert_eq!(rust_error_code("UnreadCountError"), Some(ErrorCode::unread_count()));
    assert_eq!(rust_error_code("MsgDeCompressionError"), Some(ErrorCode::new(10201)));
    assert_eq!(rust_error_code("NoSuchError"), None);
}
