//! Signing in once and keeping the credentials.

use crate::config::keeps;
use crate::config::save_credentials;
use crate::config::Config;
use vstd::prelude::*;
use vstd::string::*;

verus! {

/// The user as whom the server signed somebody in.
#[derive(Debug)]
pub struct LoginUser {
    pub nickname: String,
    pub id: String,
}

/// What is said before the server is asked.
pub fn opening_line(server: &str) -> (r: String)
    ensures
        r@ == "Logging in to "@ + server@ + "..."@,
{
    "Logging in to ".to_owned().concat(server).concat("...")
}

/// What follows when the server has let a user in.
#[derive(Debug)]
pub struct LoggedIn {
    /// What is said at once, line by line.
    pub lines: [String; 2],
    /// What is kept.
    pub config: Config,
    /// What is said when it has been kept.
    pub saved_line: String,
}

/// What follows when the server has answered: its refusal ends the command and
/// leaves what was kept before as it is; else the credentials are kept.
pub fn run<E>(
    server: &str,
    email: &str,
    password: &str,
    response: Result<LoginUser, E>,
) -> (r: Result<LoggedIn, E>)
    ensures
        match (response, r) {
            (Ok(user), Ok(next)) => {
                &&& next.lines[0]@ == "Login successful!"@
                &&& next.lines[1]@ == "User: "@ + user.nickname@ + " ("@ + user.id@ + ")"@
                &&& keeps(next.config, server@, email@, password@)
                &&& next.saved_line@ == "Credentials saved to ~/cloudreve-cli.toml"@
            },
            (Err(e), Err(f)) => e == f,
            _ => false,
        },
{
    match response {
        Ok(user) => {
            let user_line: String = "User: ".to_owned().concat(user.nickname.as_str()).concat(
                " (",
            ).concat(user.id.as_str()).concat(")");
            Ok(
                LoggedIn {
                    lines: ["Login successful!".to_owned(), user_line],
                    config: save_credentials(server, email, password),
                    saved_line: "Credentials saved to ~/cloudreve-cli.toml".to_owned(),
                },
            )
        },
        Err(e) => Err(e),
    }
}

}
