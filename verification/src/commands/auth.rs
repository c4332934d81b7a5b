//! Signing in and out under several profiles.

use crate::profiles::position;
use crate::profiles::profile_of;
use crate::profiles::with_profile;
use crate::profiles::without_name;
use crate::profiles::Profile;
use crate::profiles::Profiles;
use crate::text::same_text;
use crate::text::texts;
use crate::text::trim_end;
use crate::text::trim_end_slashes;
use vstd::prelude::*;
use vstd::string::*;

verus! {

/// What a user can ask for.
#[derive(Debug)]
pub enum AuthCommands {
    Login { server: String, email: String, password: String, name: Option<String> },
    Logout,
    Status,
    List,
}

/// What is to be done for the user.
#[derive(Debug)]
pub enum AuthAction {
    /// Sign in, and keep the account under this profile name.
    Login { server: String, email: String, password: String, profile_name: String },
    /// Sign out of this profile, or else of the one in use.
    Logout(Option<String>),
    /// Tell about this profile, or else about the one in use.
    Status(Option<String>),
    /// Tell about all profiles.
    List,
}

impl AuthCommands {
    /// What is to be done for a command, given the profile that was chosen for all
    /// commands. Signing in does not look at that one: without a name of its own it
    /// keeps the account as `default`.
    pub fn execute(self, global_profile: Option<String>) -> (r: AuthAction)
        ensures
            match self {
                AuthCommands::Login { server, email, password, name } => {
                    &&& r matches AuthAction::Login {
                        server: s,
                        email: e,
                        password: p,
                        profile_name,
                    }
                    &&& s == server
                    &&& e == email
                    &&& p == password
                    &&& match name {
                        Some(n) => profile_name == n,
                        None => profile_name@ == "default"@,
                    }
                },
                AuthCommands::Logout => r == AuthAction::Logout(global_profile),
                AuthCommands::Status => r == AuthAction::Status(global_profile),
                AuthCommands::List => r is List,
            },
    {
        match self {
            AuthCommands::Login { server, email, password, name } => {
                let profile_name: String = match name {
                    Some(n) => n,
                    None => "default".to_owned(),
                };
                AuthAction::Login { server, email, password, profile_name }
            },
            AuthCommands::Logout => AuthAction::Logout(global_profile),
            AuthCommands::Status => AuthAction::Status(global_profile),
            AuthCommands::List => AuthAction::List,
        }
    }
}

/// How the program names itself to a server.
pub fn user_agent(version: &str) -> (r: String)
    ensures
        r@ == "cloudreve-cli/"@ + version@,
{
    "cloudreve-cli/".to_owned().concat(version)
}

/// What the server answers when it lets a user in.
#[derive(Debug)]
pub struct LoginResponse {
    pub access_token: String,
    pub refresh_token: String,
    pub email: Option<String>,
    pub nickname: String,
}

/// Whether a profile is what is kept of a sign-in.
pub open spec fn profile_from(
    profile: Profile,
    server: Seq<char>,
    profile_name: Seq<char>,
    response: LoginResponse,
) -> bool {
    &&& profile.name@ == profile_name
    &&& profile.server@ == trim_end(server, '/')
    &&& profile.access_token == response.access_token
    &&& profile.refresh_token == response.refresh_token
    &&& profile.user_email == response.email
    &&& profile.user_nickname == Some(response.nickname)
}

/// Whether `after` is what is kept when a user has signed in.
pub open spec fn signed_in(
    before: Profiles,
    after: Profiles,
    server: Seq<char>,
    profile_name: Seq<char>,
    response: LoginResponse,
) -> bool {
    &&& exists|profile: Profile|
        profile_from(profile, server, profile_name, response) && after.profiles@
            == #[trigger] with_profile(before.profiles@, profile)
    &&& after.active_profile matches Some(name) && name@ == profile_name
}

/// Keeps the account that a user has signed in to and takes it into use. Returns
/// what is said once it has been saved.
pub fn login(
    cfg: &mut Profiles,
    server: &str,
    profile_name: &str,
    response: LoginResponse,
) -> (r: Vec<String>)
    ensures
        signed_in(*old(cfg), *final(cfg), server@, profile_name@, response),
        texts(r@) == seq![
            "✓ Logged in as "@ + response.nickname@ + " ("@ + (match response.email {
                Some(email) => email@,
                None => "no email"@,
            }) + ")"@,
            "  Profile: "@ + profile_name@,
        ],
{
    let mut lines: Vec<String> = Vec::new();
    let email: String = match &response.email {
        Some(email) => email.clone(),
        None => "no email".to_owned(),
    };
    lines.push(
        "✓ Logged in as ".to_owned().concat(response.nickname.as_str()).concat(" (").concat(
            email.as_str(),
        ).concat(")"),
    );
    lines.push("  Profile: ".to_owned().concat(profile_name));
    let profile: Profile = Profile {
        name: profile_name.to_owned(),
        server: trim_end_slashes(server).to_owned(),
        access_token: response.access_token,
        refresh_token: response.refresh_token,
        user_email: response.email,
        user_nickname: Some(response.nickname),
    };
    let ghost kept = profile;
    cfg.add_or_update_profile(profile);
    cfg.active_profile = Some(profile_name.to_owned());
    proof {
        assert(profile_from(kept, server@, profile_name@, response));
        assert(cfg.profiles@ == with_profile(old(cfg).profiles@, kept));
    }
    lines
}

/// What signing out comes to.
#[derive(Debug)]
pub struct LogoutOutcome {
    /// Whether there is something to save.
    pub changed: bool,
    /// What is said once it has been saved.
    pub line: String,
}

/// The profile that a command is about: the one that was chosen, or else the one in
/// use.
pub open spec fn target(cfg: Profiles, global_profile: Option<String>) -> Option<String> {
    match global_profile {
        Some(name) => Some(name),
        None => cfg.active_profile,
    }
}

/// Whether `after` and `r` are what comes of signing out.
pub open spec fn signed_out(
    before: Profiles,
    after: Profiles,
    global_profile: Option<String>,
    r: LogoutOutcome,
) -> bool {
    &&& after.active_profile == before.active_profile
    &&& match target(before, global_profile) {
        Some(name) => {
            &&& after.profiles@ == without_name(before.profiles@, name@)
            &&& r.changed == (position(before.profiles@, name@) is Some)
        },
        None => after.profiles@ == before.profiles@ && !r.changed,
    }
}

/// Signs out of the profile that was chosen, or else of the one in use.
pub fn logout(cfg: &mut Profiles, global_profile: Option<String>) -> (r: LogoutOutcome)
    ensures
        signed_out(*old(cfg), *final(cfg), global_profile, r),
        final(cfg).active_profile == old(cfg).active_profile,
        match target(*old(cfg), global_profile) {
            Some(name) => {
                &&& final(cfg).profiles@ == without_name(old(cfg).profiles@, name@)
                &&& r.changed == (position(old(cfg).profiles@, name@) is Some)
                &&& r.line@ == if r.changed {
                    "✓ Logged out from profile '"@ + name@ + "'"@
                } else {
                    "Profile '"@ + name@ + "' not found"@
                }
            },
            None => {
                &&& final(cfg).profiles@ == old(cfg).profiles@
                &&& !r.changed
                &&& r.line@ == "No profile specified and no active profile set"@
            },
        },
{
    let profile_name: Option<String> = match global_profile {
        Some(name) => Some(name),
        None => cfg.active_profile.clone(),
    };
    match profile_name {
        Some(name) => {
            if cfg.remove_profile(name.as_str()) {
                let line: String = "✓ Logged out from profile '".to_owned().concat(
                    name.as_str(),
                ).concat("'");
                LogoutOutcome { changed: true, line }
            } else {
                LogoutOutcome {
                    changed: false,
                    line: "Profile '".to_owned().concat(name.as_str()).concat("' not found"),
                }
            }
        },
        None => LogoutOutcome {
            changed: false,
            line: "No profile specified and no active profile set".to_owned(),
        },
    }
}

/// A line about something that may not be known.
pub open spec fn optional_line(label: Seq<char>, value: Option<String>) -> Seq<Seq<char>> {
    match value {
        Some(v) => seq![label + v@],
        None => Seq::empty(),
    }
}

fn push_optional(lines: &mut Vec<String>, label: &str, value: &Option<String>)
    ensures
        texts(final(lines)@) == texts(old(lines)@) + optional_line(label@, *value),
{
    if let Some(v) = value {
        lines.push(label.to_owned().concat(v.as_str()));
    }
    assert(texts(lines@) =~= texts(old(lines)@) + optional_line(label@, *value));
}

/// What is said of credentials that come from the environment.
pub fn environment_lines(server: &str, email: &Option<String>) -> (r: Vec<String>)
    ensures
        texts(r@) == seq![
            "Using credentials from environment variables:"@,
            "  Server: "@ + server@,
        ] + optional_line("  Email: "@, *email) + seq![Seq::<char>::empty()],
{
    let mut lines: Vec<String> = Vec::new();
    lines.push("Using credentials from environment variables:".to_owned());
    lines.push("  Server: ".to_owned().concat(server));
    assert(texts(lines@) =~= seq![
        "Using credentials from environment variables:"@,
        "  Server: "@ + server@,
    ]);
    push_optional(&mut lines, "  Email: ", email);
    let ghost before = texts(lines@);
    lines.push(String::new());
    assert(texts(lines@) =~= before + seq![Seq::<char>::empty()]);
    lines
}

/// What is said of a profile.
pub open spec fn profile_lines(p: Profile) -> Seq<Seq<char>> {
    seq!["Profile: "@ + p.name@, "  Server: "@ + p.server@] + optional_line(
        "  Email: "@,
        p.user_email,
    ) + optional_line("  Nickname: "@, p.user_nickname)
}

/// What is said when there is no profile to tell about.
pub open spec fn no_profile_lines() -> Seq<Seq<char>> {
    seq!["No active profile found."@, "Run 'cloudreve login' to authenticate."@]
}

/// The server and the tokens with which an account is tried.
#[derive(Debug)]
pub struct Credentials {
    pub server: String,
    pub access_token: String,
    pub refresh_token: String,
}

/// The profile that the status is about.
pub open spec fn status_profile(cfg: Profiles, global_profile: Option<String>) -> Option<Profile> {
    match global_profile {
        Some(name) => profile_of(cfg.profiles@, name@),
        None => cfg.active(),
    }
}

/// What is said of a profile, and the credentials to try if there is one.
pub fn status(cfg: &Profiles, global_profile: &Option<String>) -> (r: (
    Vec<String>,
    Option<Credentials>,
))
    ensures
        match status_profile(*cfg, *global_profile) {
            Some(p) => {
                &&& texts(r.0@) == profile_lines(p)
                &&& r.1 == Some(
                    Credentials {
                        server: p.server,
                        access_token: p.access_token,
                        refresh_token: p.refresh_token,
                    },
                )
            },
            None => texts(r.0@) == no_profile_lines() && r.1 is None,
        },
{
    let profile: Option<&Profile> = match global_profile {
        Some(name) => cfg.get_profile(name.as_str()),
        None => cfg.get_active_profile(),
    };
    let mut lines: Vec<String> = Vec::new();
    match profile {
        Some(p) => {
            lines.push("Profile: ".to_owned().concat(p.name.as_str()));
            lines.push("  Server: ".to_owned().concat(p.server.as_str()));
            assert(texts(lines@) =~= seq!["Profile: "@ + p.name@, "  Server: "@ + p.server@]);
            push_optional(&mut lines, "  Email: ", &p.user_email);
            push_optional(&mut lines, "  Nickname: ", &p.user_nickname);
            let credentials: Credentials = Credentials {
                server: p.server.clone(),
                access_token: p.access_token.clone(),
                refresh_token: p.refresh_token.clone(),
            };
            (lines, Some(credentials))
        },
        None => {
            lines.push("No active profile found.".to_owned());
            lines.push("Run 'cloudreve login' to authenticate.".to_owned());
            assert(texts(lines@) =~= no_profile_lines());
            (lines, None)
        },
    }
}

/// What is said when the credentials have been tried: the id of the user, or why
/// they were refused.
pub fn status_result(result: Result<String, String>) -> (r: Vec<String>)
    ensures
        texts(r@) == match result {
            Ok(id) => seq!["  Status: ✓ Authenticated"@, "  User ID: "@ + id@],
            Err(e) => seq![
                "  Status: ✗ Authentication failed ("@ + e@ + ")"@,
                "  Try running 'cloudreve login' again"@,
            ],
        },
{
    let mut lines: Vec<String> = Vec::new();
    match result {
        Ok(id) => {
            lines.push("  Status: ✓ Authenticated".to_owned());
            lines.push("  User ID: ".to_owned().concat(id.as_str()));
        },
        Err(e) => {
            lines.push(
                "  Status: ✗ Authentication failed (".to_owned().concat(e.as_str()).concat(")"),
            );
            lines.push("  Try running 'cloudreve login' again".to_owned());
        },
    }
    lines
}

/// What the list says of a profile. The one in use is marked.
pub open spec fn list_entry(p: Profile, active_profile: Option<String>) -> Seq<Seq<char>> {
    let marker = match active_profile {
        Some(name) => if name@ == p.name@ {
            "*"@
        } else {
            " "@
        },
        None => " "@,
    };
    seq!["  "@ + marker + " "@ + p.name@ + " ("@ + p.server@ + ")"@] + optional_line(
        "      Email: "@,
        p.user_email,
    )
}

/// What the list says of several profiles.
pub open spec fn list_entries(profiles: Seq<Profile>, active_profile: Option<String>) -> Seq<
    Seq<char>,
>
    decreases profiles.len(),
{
    if profiles.len() == 0 {
        Seq::empty()
    } else {
        list_entries(profiles.drop_last(), active_profile) + list_entry(
            profiles.last(),
            active_profile,
        )
    }
}

/// Tells about all profiles.
pub fn list_profiles(cfg: &Profiles) -> (r: Vec<String>)
    ensures
        texts(r@) == if cfg.profiles@.len() == 0 {
            seq!["No profiles configured."@, "Run 'cloudreve login' to create a profile."@]
        } else {
            seq!["Profiles:"@] + list_entries(cfg.profiles@, cfg.active_profile)
        },
{
    let mut lines: Vec<String> = Vec::new();
    if cfg.profiles.len() == 0 {
        lines.push("No profiles configured.".to_owned());
        lines.push("Run 'cloudreve login' to create a profile.".to_owned());
        return lines;
    }
    lines.push("Profiles:".to_owned());
    let mut i: usize = 0;
    assert(texts(lines@) =~= seq!["Profiles:"@] + list_entries(
        cfg.profiles@.take(0),
        cfg.active_profile,
    ));
    while i < cfg.profiles.len()
        invariant
            i <= cfg.profiles@.len(),
            texts(lines@) == seq!["Profiles:"@] + list_entries(
                cfg.profiles@.take(i as int),
                cfg.active_profile,
            ),
        decreases cfg.profiles@.len() - i,
    {
        let p: &Profile = &cfg.profiles[i];
        let active: bool = match &cfg.active_profile {
            Some(name) => same_text(name.as_str(), p.name.as_str()),
            None => false,
        };
        let marker: &str = if active {
            "*"
        } else {
            " "
        };
        let ghost before = texts(lines@);
        lines.push(
            "  ".to_owned().concat(marker).concat(" ").concat(p.name.as_str()).concat(" (").concat(
                p.server.as_str(),
            ).concat(")"),
        );
        let ghost head = "  "@ + marker@ + " "@ + p.name@ + " ("@ + p.server@ + ")"@;
        assert(texts(lines@) =~= before + seq![head]);
        push_optional(&mut lines, "      Email: ", &p.user_email);
        proof {
            let longer = cfg.profiles@.take(i + 1);
            assert(longer.drop_last() =~= cfg.profiles@.take(i as int));
            assert(longer.last() == cfg.profiles@[i as int]);
            assert(texts(lines@) =~= seq!["Profiles:"@] + list_entries(longer, cfg.active_profile));
        }
        i = i + 1;
    }
    assert(cfg.profiles@.take(i as int) =~= cfg.profiles@);
    lines
}

/// Who has signed in is told about next, if no other profile is chosen.
pub proof fn status_follows_login(
    before: Profiles,
    after: Profiles,
    server: Seq<char>,
    profile_name: Seq<char>,
    response: LoginResponse,
)
    requires
        signed_in(before, after, server, profile_name, response),
    ensures
        status_profile(after, None) matches Some(p) && profile_from(
            p,
            server,
            profile_name,
            response,
        ),
{
    let profile = choose|profile: Profile|
        profile_from(profile, server, profile_name, response) && after.profiles@
            == #[trigger] with_profile(before.profiles@, profile);
    crate::profiles::kept_profile_is_found(before.profiles@, profile, profile_name);
}

/// Who has signed out of the profile in use is not told about any more.
pub proof fn status_follows_logout(before: Profiles, after: Profiles, name: String)
    requires
        target(before, None) == Some(name),
        after.profiles@ == without_name(before.profiles@, name@),
        after.active_profile == before.active_profile,
    ensures
        status_profile(after, None) is None,
        status_profile(after, Some(name)) is None,
{
    crate::profiles::forgotten_name_is_not_found(before.profiles@, name@, name@);
}

/// Signing in and then out of a profile leaves nothing under its name, and what is
/// kept under other names as it was before.
pub proof fn other_profiles_survive_login_and_logout(
    before: Profiles,
    between: Profiles,
    after: Profiles,
    server: Seq<char>,
    profile_name: Seq<char>,
    response: LoginResponse,
    other: Seq<char>,
)
    requires
        signed_in(before, between, server, profile_name, response),
        after.profiles@ == without_name(between.profiles@, profile_name),
    ensures
        profile_of(after.profiles@, profile_name) is None,
        other != profile_name ==> profile_of(after.profiles@, other) == profile_of(
            before.profiles@,
            other,
        ),
{
    let profile = choose|profile: Profile|
        profile_from(profile, server, profile_name, response) && between.profiles@
            == #[trigger] with_profile(before.profiles@, profile);
    crate::profiles::kept_profile_is_found(before.profiles@, profile, other);
    crate::profiles::forgotten_name_is_not_found(between.profiles@, profile_name, other);
}

/// Who signs in is kept under the name that was given, with the server without its last
/// slashes and with what the server answered, and is taken into use.
pub proof fn sign_in_keeps_what_the_server_answered(
    before: Profiles,
    after: Profiles,
    server: Seq<char>,
    profile_name: Seq<char>,
    response: LoginResponse,
)
    requires
        signed_in(before, after, server, profile_name, response),
    ensures
        after.active_profile matches Some(name) && name@ == profile_name,
        profile_of(after.profiles@, profile_name) matches Some(p) && {
            &&& p.name@ == profile_name
            &&& server.len() > 0 && server.last() != '/' ==> p.server@ == server
            &&& p.server@.is_prefix_of(server)
            &&& p.server@.len() > 0 ==> p.server@.last() != '/'
            &&& forall|i: int| p.server@.len() <= i < server.len() ==> #[trigger] server[i] == '/'
            &&& p.access_token == response.access_token
            &&& p.refresh_token == response.refresh_token
            &&& p.user_email == response.email
            &&& p.user_nickname == Some(response.nickname)
        },
{
    let profile = choose|profile: Profile|
        profile_from(profile, server, profile_name, response) && after.profiles@
            == #[trigger] with_profile(before.profiles@, profile);
    crate::profiles::kept_profile_is_found(before.profiles@, profile, profile_name);
    crate::text::trimmed_end_is_only_what_is_to_go(server, '/');
}

/// The profile that was chosen goes before the one in use, for signing out and for the
/// status alike.
pub proof fn chosen_profile_goes_first(cfg: Profiles, chosen: String)
    ensures
        target(cfg, Some(chosen)) == Some(chosen),
        target(cfg, None) == cfg.active_profile,
        status_profile(cfg, Some(chosen)) == profile_of(cfg.profiles@, chosen@),
        cfg.active_profile is None ==> status_profile(cfg, None) is None,
        cfg.active_profile matches Some(name) ==> status_profile(cfg, None) == profile_of(
            cfg.profiles@,
            name@,
        ),
{
}

/// The list says of each profile its name and its server, its address if it is known, and
/// has a star before the one in use and no other.
pub proof fn list_marks_the_profile_in_use(p: Profile, active_profile: Option<String>)
    ensures
        list_entry(p, active_profile).len() == if p.user_email is Some {
            2int
        } else {
            1
        },
        active_profile is Some && active_profile->Some_0@ == p.name@ ==> list_entry(
            p,
            active_profile,
        )[0] == "  "@ + "*"@ + " "@ + p.name@ + " ("@ + p.server@ + ")"@,
        !(active_profile is Some && active_profile->Some_0@ == p.name@) ==> list_entry(
            p,
            active_profile,
        )[0] == "  "@ + " "@ + " "@ + p.name@ + " ("@ + p.server@ + ")"@,
        p.user_email matches Some(email) ==> list_entry(p, active_profile)[1] == "      Email: "@
            + email@,
{
}

/// Signing out drops the profiles of one name, that of the chosen profile or else that of
/// the one in use, and nothing else; and it tells that something has changed exactly if a
/// profile is gone.
pub proof fn signing_out_drops_one_name(
    before: Profiles,
    after: Profiles,
    global_profile: Option<String>,
    r: LogoutOutcome,
    p: Profile,
)
    requires
        signed_out(before, after, global_profile, r),
    ensures
        after.active_profile == before.active_profile,
        ({
            let name = if global_profile is Some {
                global_profile
            } else {
                before.active_profile
            };
            &&& after.profiles@.contains(p) <==> before.profiles@.contains(p) && (name is None
                || p.name@ != name->Some_0@)
            &&& before.profiles@.contains(p) && name is Some && p.name@ == name->Some_0@
                ==> r.changed
            &&& r.changed ==> name is Some && profile_of(before.profiles@, name->Some_0@) is Some
        }),
{
    let name = if global_profile is Some {
        global_profile
    } else {
        before.active_profile
    };
    if let Some(n) = name {
        crate::profiles::forgetting_keeps_every_other_profile(before.profiles@, n@, p);
        if before.profiles@.contains(p) && p.name@ == n@ {
            let i = before.profiles@.index_of(p);
            crate::profiles::profiles_are_found_by_their_name(before.profiles@, n@, i);
        }
    }
}

/// The list tells of the profiles one after the other, in the order in which they are kept.
pub proof fn list_tells_of_each_in_order(
    profiles: Seq<Profile>,
    p: Profile,
    active_profile: Option<String>,
)
    ensures
        list_entries(Seq::<Profile>::empty(), active_profile) == Seq::<Seq<char>>::empty(),
        list_entries(profiles.push(p), active_profile) == list_entries(profiles, active_profile)
            + list_entry(p, active_profile),
{
    assert(profiles.push(p).drop_last() =~= profiles);
}

/// What is said of a profile begins with its name and its server, and has its address and
/// its nickname as far as they are known.
pub proof fn status_tells_what_is_known(p: Profile)
    ensures
        profile_lines(p).len() == 2 + (if p.user_email is Some {
            1int
        } else {
            0
        }) + (if p.user_nickname is Some {
            1int
        } else {
            0
        }),
        profile_lines(p)[0] == "Profile: "@ + p.name@,
        profile_lines(p)[1] == "  Server: "@ + p.server@,
        p.user_email matches Some(email) ==> profile_lines(p)[2] == "  Email: "@ + email@,
        p.user_nickname matches Some(nickname) ==> profile_lines(p).last() == "  Nickname: "@
            + nickname@,
{
}

}
