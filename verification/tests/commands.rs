use cloudreve_cli::api::user::ApiRequest;
use cloudreve_cli::api::user::Client;
use cloudreve_cli::api::user::GetCreditLogService;
use cloudreve_cli::api::user::Method;
use cloudreve_cli::api::user::UserApi;
use cloudreve_cli::commands::auth;
use cloudreve_cli::commands::auth::AuthAction;
use cloudreve_cli::commands::auth::AuthCommands;
use cloudreve_cli::commands::auth::LoginResponse;
use cloudreve_cli::commands::login;
use cloudreve_cli::commands::login::LoginUser;
use cloudreve_cli::config::save_credentials;
use cloudreve_cli::config::Config;
use cloudreve_cli::config::Environment;
use cloudreve_cli::profiles::Profile;
use cloudreve_cli::profiles::Profiles;

fn some(text: &str) -> Option<String> {
    Some(text.to_string())
}

fn no_environment() -> Environment {
    Environment { server: None, email: None, password: None }
}

fn asked<B>(request: &ApiRequest<B>) -> (Method, &str, bool) {
    (request.method, request.path.as_str(), request.no_credential)
}

#[test]
fn signing_in_needs_no_credential() {
    let request = Client {}.login("a@b.c", "pw");
    assert_eq!(asked(&request), (Method::Post, "/session/token", true));
    assert_eq!(request.body.email, "a@b.c");
    assert_eq!(request.body.password, "pw");
    assert_eq!(request.body.captcha, None);
    let request = Client {}.login_2fa("123456", "sid");
    assert_eq!(asked(&request), (Method::Post, "/session/2fa", true));
    assert_eq!(request.body.otp, "123456");
    assert_eq!(request.body.session_id, "sid");
}

#[test]
fn account_requests_go_to_their_paths() {
    let c = Client {};
    assert_eq!(asked(&c.get_user_me()), (Method::Get, "/user/me", false));
    assert_eq!(asked(&c.get_user_capacity()), (Method::Get, "/user/capacity", false));
    assert_eq!(asked(&c.get_user_settings()), (Method::Get, "/user/setting", false));
    assert_eq!(
        asked(&c.get_user_storage_policies()),
        (Method::Get, "/user/setting/policies", false)
    );
    let patch = c.patch_user_settings(5);
    assert_eq!(asked(&patch), (Method::Patch, "/user/setting", false));
    assert_eq!(patch.body, 5);
    let sign_up = c.sign_up("s");
    assert_eq!(asked(&sign_up), (Method::Post, "/user/register", true));
    assert_eq!(sign_up.body, "s");
    assert_eq!(asked(&c.send_reset_email(())), (Method::Post, "/user/reset", true));
    assert_eq!(asked(&c.reset_password(())), (Method::Post, "/user/reset/confirm", true));
}

#[test]
fn credit_log_is_asked_for_with_what_is_given() {
    let mut params = GetCreditLogService {
        page_size: None,
        order_by: None,
        order_direction: None,
        next_page_token: None,
    };
    let path = |p: &GetCreditLogService| Client {}.get_credit_log(p).path;
    assert_eq!(path(&params), "/user/credit/log");
    params.order_direction = some("asc");
    assert_eq!(path(&params), "/user/credit/log?order_direction=asc");
    params.page_size = Some(-50);
    params.next_page_token = some("t");
    assert_eq!(
        path(&params),
        "/user/credit/log?page_size=-50&order_direction=asc&next_page_token=t"
    );
    params.order_by = some("id");
    assert_eq!(
        path(&params),
        "/user/credit/log?page_size=-50&order_by=id&order_direction=asc&next_page_token=t"
    );
}

#[test]
fn kept_credentials_are_resolved() {
    let config = save_credentials("https://s", "a@b.c", "pw");
    assert!(config.default.is_configured(&no_environment()));
    assert_eq!(config.default.missing(&no_environment()), None);
    let resolved = config.default.resolve(&no_environment());
    assert_eq!(resolved.server, "https://s");
    assert_eq!(resolved.email, "a@b.c");
    assert_eq!(resolved.password, "pw");
}

#[test]
fn environment_overrides_what_is_kept() {
    let config = save_credentials("https://s", "a@b.c", "pw");
    let env = Environment { server: None, email: some(""), password: some("other") };
    let resolved = config.default.resolve(&env);
    assert_eq!(resolved.server, "https://s");
    assert_eq!(resolved.email, "");
    assert_eq!(resolved.password, "other");
}

#[test]
fn first_missing_setting_is_complained_of() {
    let mut config = Config::default();
    let mut env = no_environment();
    assert!(!config.default.is_configured(&env));
    assert_eq!(
        config.default.missing(&env).as_deref(),
        Some("CLOUDREVE_SERVER not set and no server in config")
    );
    env.server = some("https://s");
    assert_eq!(
        config.default.missing(&env).as_deref(),
        Some("CLOUDREVE_EMAIL not set and no email in config")
    );
    config.default.email = some("a@b.c");
    assert_eq!(
        config.default.missing(&env).as_deref(),
        Some("CLOUDREVE_PASSWORD not set and no password in config")
    );
    env.password = some("pw");
    assert_eq!(config.default.missing(&env), None);
    assert!(config.default.is_configured(&env));
}

#[test]
fn login_keeps_the_credentials() {
    assert_eq!(login::opening_line("https://s"), "Logging in to https://s...");
    let user = LoginUser { nickname: "Nick".to_string(), id: "u1".to_string() };
    let next = login::run("https://s", "a@b.c", "pw", Ok::<_, String>(user)).unwrap();
    assert_eq!(next.lines[0], "Login successful!");
    assert_eq!(next.lines[1], "User: Nick (u1)");
    assert_eq!(next.config.default.server.as_deref(), Some("https://s"));
    assert_eq!(next.config.default.email.as_deref(), Some("a@b.c"));
    assert_eq!(next.config.default.password.as_deref(), Some("pw"));
    assert_eq!(next.saved_line, "Credentials saved to ~/cloudreve-cli.toml");
}

#[test]
fn refused_login_keeps_nothing() {
    assert_eq!(login::run("s", "e", "p", Err("no")).err(), Some("no"));
}

#[test]
fn auth_commands_become_actions() {
    let login = |name| AuthCommands::Login {
        server: "s".to_string(),
        email: "e".to_string(),
        password: "p".to_string(),
        name,
    };
    for (name, kept) in [(None, "default"), (some("work"), "work")] {
        match login(name).execute(some("global")) {
            AuthAction::Login { server, email, password, profile_name } => {
                assert_eq!((server.as_str(), email.as_str()), ("s", "e"));
                assert_eq!((password.as_str(), profile_name.as_str()), ("p", kept));
            }
            _ => panic!("another action"),
        }
    }
    match AuthCommands::Logout.execute(some("g")) {
        AuthAction::Logout(p) => assert_eq!(p, some("g")),
        _ => panic!("another action"),
    }
    match AuthCommands::Status.execute(None) {
        AuthAction::Status(p) => assert_eq!(p, None),
        _ => panic!("another action"),
    }
    assert!(matches!(AuthCommands::List.execute(None), AuthAction::List));
    assert_eq!(auth::user_agent("0.1.0"), "cloudreve-cli/0.1.0");
}

fn response(email: Option<String>) -> LoginResponse {
    LoginResponse {
        access_token: "acc".to_string(),
        refresh_token: "ref".to_string(),
        email,
        nickname: "Nick".to_string(),
    }
}

#[test]
fn signing_in_takes_a_profile_into_use() {
    let mut cfg = Profiles::default();
    let lines = auth::login(&mut cfg, "https://s//", "work", response(some("a@b.c")));
    assert_eq!(lines, vec!["✓ Logged in as Nick (a@b.c)", "  Profile: work"]);
    let lines = auth::login(&mut cfg, "https://t", "home", response(None));
    assert_eq!(lines, vec!["✓ Logged in as Nick (no email)", "  Profile: home"]);
    assert_eq!(cfg.profiles.len(), 2);
    assert_eq!(cfg.profiles[0].server, "https://s");
    let (lines, credentials) = auth::status(&cfg, &None);
    assert_eq!(lines, vec!["Profile: home", "  Server: https://t", "  Nickname: Nick"]);
    let credentials = credentials.unwrap();
    assert_eq!(credentials.server, "https://t");
    assert_eq!(credentials.access_token, "acc");
    assert_eq!(credentials.refresh_token, "ref");
    let (lines, _) = auth::status(&cfg, &some("work"));
    assert_eq!(
        lines,
        vec!["Profile: work", "  Server: https://s", "  Email: a@b.c", "  Nickname: Nick"]
    );
}

#[test]
fn signing_in_again_replaces_the_profile() {
    let mut cfg = Profiles::default();
    auth::login(&mut cfg, "https://s", "work", response(None));
    auth::login(&mut cfg, "https://t", "home", response(None));
    auth::login(&mut cfg, "https://u", "work", response(None));
    let servers: Vec<&str> = cfg.profiles.iter().map(|p| p.server.as_str()).collect();
    assert_eq!(servers, vec!["https://u", "https://t"]);
    assert_eq!(cfg.active_profile.as_deref(), Some("work"));
}

#[test]
fn signing_out_forgets_the_profile() {
    let mut cfg = Profiles::default();
    auth::login(&mut cfg, "https://s", "work", response(None));
    auth::login(&mut cfg, "https://t", "home", response(None));
    let out = auth::logout(&mut cfg, None);
    assert!(out.changed);
    assert_eq!(out.line, "✓ Logged out from profile 'home'");
    assert!(cfg.get_active_profile().is_none());
    let (lines, credentials) = auth::status(&cfg, &None);
    assert_eq!(
        lines,
        vec!["No active profile found.", "Run 'cloudreve login' to authenticate."]
    );
    assert!(credentials.is_none());
    let out = auth::logout(&mut cfg, some("nobody"));
    assert!(!out.changed);
    assert_eq!(out.line, "Profile 'nobody' not found");
    let out = auth::logout(&mut cfg, some("work"));
    assert_eq!(out.line, "✓ Logged out from profile 'work'");
    assert!(cfg.profiles.is_empty());
    cfg.active_profile = None;
    let out = auth::logout(&mut cfg, None);
    assert!(!out.changed);
    assert_eq!(out.line, "No profile specified and no active profile set");
}

#[test]
fn all_profiles_of_a_name_are_forgotten() {
    let profile = |name: &str| Profile {
        name: name.to_string(),
        server: String::new(),
        access_token: String::new(),
        refresh_token: String::new(),
        user_email: None,
        user_nickname: None,
    };
    let mut cfg = Profiles {
        profiles: vec![profile("a"), profile("b"), profile("a"), profile("c")],
        active_profile: some("b"),
    };
    assert_eq!(cfg.find("c"), Some(3));
    assert!(cfg.remove_profile("a"));
    assert!(!cfg.remove_profile("a"));
    let names: Vec<&str> = cfg.profiles.iter().map(|p| p.name.as_str()).collect();
    assert_eq!(names, vec!["b", "c"]);
    assert_eq!(cfg.get_active_profile().unwrap().name, "b");
    assert!(cfg.get_profile("a").is_none());
}

#[test]
fn profiles_are_listed() {
    let mut cfg = Profiles::default();
    assert_eq!(
        auth::list_profiles(&cfg),
        vec!["No profiles configured.", "Run 'cloudreve login' to create a profile."]
    );
    auth::login(&mut cfg, "https://s", "work", response(some("a@b.c")));
    auth::login(&mut cfg, "https://t", "home", response(None));
    assert_eq!(
        auth::list_profiles(&cfg),
        vec![
            "Profiles:",
            "    work (https://s)",
            "      Email: a@b.c",
            "  * home (https://t)",
        ]
    );
}

#[test]
fn status_tells_of_environment_and_answer() {
    assert_eq!(
        auth::environment_lines("https://s", &some("a@b.c")),
        vec![
            "Using credentials from environment variables:",
            "  Server: https://s",
            "  Email: a@b.c",
            "",
        ]
    );
    assert_eq!(auth::environment_lines("https://s", &None).len(), 3);
    assert_eq!(
        auth::status_result(Ok("u1".to_string())),
        vec!["  Status: ✓ Authenticated", "  User ID: u1"]
    );
    assert_eq!(
        auth::status_result(Err("expired".to_string())),
        vec![
            "  Status: ✗ Authentication failed (expired)",
            "  Try running 'cloudreve login' again",
        ]
    );
}
