use conn_pool::{
    app_name_str, is_auth_failed_message, startup_params, str_contains, AsyncMessage, ConnInfo,
    DriverState, Level, PollEvent,
};

fn info_with_options(options: Option<&str>) -> ConnInfo {
    ConnInfo {
        username: "alice".to_string(),
        dbname: "orders".to_string(),
        hostname: "ep.example".to_string(),
        password: "secret".to_string(),
        options: options.map(|o| o.to_string()),
    }
}

#[test]
fn display_renders_user_host_db() {
    let ci = info_with_options(None);
    assert_eq!(ci.display_str(), "alice@ep.example/orders");
}

#[test]
fn display_never_contains_the_password() {
    let ci = info_with_options(None);
    assert!(!ci.display_str().contains("secret"));
    let other = ConnInfo { password: "another".to_string(), ..info_with_options(None) };
    assert_eq!(ci.display_str(), other.display_str());
}

#[test]
fn db_and_user_key() {
    let ci = info_with_options(None);
    let (db, user) = ci.db_and_user();
    assert_eq!(db, "orders");
    assert_eq!(user, "alice");
}

#[test]
fn startup_params_verbatim_keys() {
    let ci = info_with_options(Some("-c search_path=public"));
    let params = startup_params(&ci);
    assert_eq!(params.len(), 4);
    assert_eq!(params[0], ("user".to_string(), "alice".to_string()));
    assert_eq!(params[1], ("database".to_string(), "orders".to_string()));
    assert_eq!(params[2], ("application_name".to_string(), "/sql_over_http".to_string()));
    assert_eq!(params[3], ("options".to_string(), "-c search_path=public".to_string()));
}

#[test]
fn startup_params_empty_options() {
    let ci = info_with_options(None);
    let params = startup_params(&ci);
    assert_eq!(params[3], ("options".to_string(), "".to_string()));
}

#[test]
fn app_name_value() {
    assert_eq!(app_name_str(), "/sql_over_http");
}

#[test]
fn auth_failure_message_is_recognised() {
    assert!(is_auth_failed_message("password authentication failed"));
    assert!(is_auth_failed_message("db error: FATAL: password authentication failed for user"));
    assert!(!is_auth_failed_message("connection refused"));
    assert!(!is_auth_failed_message("password authentication faile"));
}

#[test]
fn substring_search() {
    assert!(str_contains("hello world", "lo wo"));
    assert!(str_contains("hello", "hello"));
    assert!(str_contains("hello", ""));
    assert!(!str_contains("", "a"));
    assert!(!str_contains("abc", "abd"));
    assert!(str_contains("aaab", "aab"));
}

#[test]
fn driver_logs_and_terminates_as_specified() {
    let mut state = DriverState::new(11);
    assert_eq!(state.session, 11);
    state.on_session_change(12);
    assert_eq!(state.session, 12, "log lines after a watch update carry the new session");

    let notice = PollEvent::Message(AsyncMessage::Notice("relation exists".to_string()));
    assert_eq!(state.on_event(&notice), (Level::Info, false));
    let notification = PollEvent::Message(AsyncMessage::Notification {
        process_id: 42,
        channel: "jobs".to_string(),
    });
    assert_eq!(state.on_event(&notification), (Level::Warning, false));
    assert_eq!(state.on_event(&PollEvent::Message(AsyncMessage::Other)), (Level::Warning, false));
    assert_eq!(
        state.on_event(&PollEvent::StreamError("broken pipe".to_string())),
        (Level::Error, true)
    );
    assert_eq!(state.on_event(&PollEvent::End), (Level::Info, true));
}

#[test]
fn level_decodes_backend_severities() {
    assert!(matches!(Level::from(10), Level::Debug5));
    assert!(matches!(Level::from(14), Level::Debug1));
    assert!(matches!(Level::from(15), Level::Log));
    assert!(matches!(Level::from(17), Level::Info));
    assert!(matches!(Level::from(18), Level::Notice));
    assert!(matches!(Level::from(19), Level::Warning));
    assert!(matches!(Level::from(21), Level::Error));
    assert!(matches!(Level::from(22), Level::Fatal));
    assert!(matches!(Level::from(23), Level::Panic));
    assert!(matches!(Level::from(24), Level::WPEvent));
}
