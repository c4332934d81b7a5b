//! Users and authentication: what each call asks of the server.

use crate::text::join;
use crate::text::joined;
use crate::text::signed_decimal;
use crate::text::signed_decimal_text;
use crate::text::texts;
use vstd::prelude::*;
use vstd::string::*;

verus! {

/// The way in which a request is made.
#[derive(Debug, Clone, Copy, PartialEq, Eq, Structural)]
pub enum Method {
    Get,
    Post,
    Patch,
}

/// A request to the server. A request without a credential is sent without the
/// access token of the user.
#[derive(Debug)]
pub struct ApiRequest<B> {
    pub method: Method,
    pub path: String,
    pub body: B,
    pub no_credential: bool,
}

impl<B> ApiRequest<B> {
    /// Whether the request is made in this way, to this path.
    pub open spec fn is_to(self, method: Method, path: Seq<char>, no_credential: bool) -> bool {
        &&& self.method == method
        &&& self.path@ == path
        &&& self.no_credential == no_credential
    }
}

/// Signing in with a password.
#[derive(Debug)]
pub struct PasswordLoginRequest {
    pub email: String,
    pub password: String,
    pub captcha: Option<String>,
}

/// Signing in with the code of a second factor.
#[derive(Debug)]
pub struct TwoFALoginRequest {
    pub otp: String,
    pub session_id: String,
}

/// Which part of the credit log is asked for.
#[derive(Debug)]
pub struct GetCreditLogService {
    pub page_size: Option<i64>,
    pub order_by: Option<String>,
    pub order_direction: Option<String>,
    pub next_page_token: Option<String>,
}

/// A parameter of a query, where it is given.
pub open spec fn parameter(name: Seq<char>, value: Option<Seq<char>>) -> Seq<Seq<char>> {
    match value {
        Some(v) => seq![name + "="@ + v],
        None => Seq::empty(),
    }
}

impl GetCreditLogService {
    /// The parameters that are given, in the order in which they are sent.
    pub open spec fn parameters(self) -> Seq<Seq<char>> {
        let page_size = match self.page_size {
            Some(n) => Some(signed_decimal(n as int)),
            None => None,
        };
        parameter("page_size"@, page_size) + parameter(
            "order_by"@,
            crate::text::opt_text(self.order_by),
        ) + parameter("order_direction"@, crate::text::opt_text(self.order_direction)) + parameter(
            "next_page_token"@,
            crate::text::opt_text(self.next_page_token),
        )
    }

    /// The query: nothing where no parameter is given.
    pub open spec fn query(self) -> Seq<char> {
        if self.parameters().len() == 0 {
            Seq::empty()
        } else {
            "?"@ + joined(self.parameters(), "&"@)
        }
    }

    /// Writes the query: nothing where no parameter is given.
    pub fn query_text(&self) -> (r: String)
        ensures
            r@ == self.query(),
    {
        let mut parts: Vec<String> = Vec::new();
        if let Some(page_size) = self.page_size {
            let number: String = signed_decimal_text(page_size);
            parts.push(written_parameter("page_size", number.as_str()));
        }
        if let Some(order_by) = &self.order_by {
            parts.push(written_parameter("order_by", order_by.as_str()));
        }
        if let Some(order_direction) = &self.order_direction {
            parts.push(written_parameter("order_direction", order_direction.as_str()));
        }
        if let Some(next_page_token) = &self.next_page_token {
            parts.push(written_parameter("next_page_token", next_page_token.as_str()));
        }
        assert(texts(parts@) =~= self.parameters());
        if parts.len() == 0 {
            String::new()
        } else {
            "?".to_owned().concat(join(&parts, "&").as_str())
        }
    }
}

fn written_parameter(name: &str, value: &str) -> (r: String)
    ensures
        r@ == name@ + "="@ + value@,
{
    name.to_owned().concat("=").concat(value)
}

/// User and authentication requests. What a request carries apart from what is
/// said here is up to the caller.
pub trait UserApi {
    /// Login with email and password
    fn login(&self, email: &str, password: &str) -> (r: ApiRequest<PasswordLoginRequest>)
        ensures
            r.is_to(Method::Post, "/session/token"@, true),
            r.body.email@ == email@,
            r.body.password@ == password@,
            r.body.captcha is None,
    ;

    /// Login with 2FA code
    fn login_2fa(&self, otp: &str, session_id: &str) -> (r: ApiRequest<TwoFALoginRequest>)
        ensures
            r.is_to(Method::Post, "/session/2fa"@, true),
            r.body.otp@ == otp@,
            r.body.session_id@ == session_id@,
    ;

    /// Get current user information
    fn get_user_me(&self) -> (r: ApiRequest<()>)
        ensures
            r.is_to(Method::Get, "/user/me"@, false),
    ;

    /// Get user capacity information
    fn get_user_capacity(&self) -> (r: ApiRequest<()>)
        ensures
            r.is_to(Method::Get, "/user/capacity"@, false),
    ;

    /// Get user settings
    fn get_user_settings(&self) -> (r: ApiRequest<()>)
        ensures
            r.is_to(Method::Get, "/user/setting"@, false),
    ;

    /// Update user settings
    fn patch_user_settings<S>(&self, settings: S) -> (r: ApiRequest<S>)
        ensures
            r.is_to(Method::Patch, "/user/setting"@, false),
            r.body == settings,
    ;

    /// Get credit change log
    fn get_credit_log(&self, params: &GetCreditLogService) -> (r: ApiRequest<()>)
        ensures
            r.is_to(Method::Get, "/user/credit/log"@ + params.query(), false),
    ;

    /// Sign up a new user
    fn sign_up<S>(&self, request: S) -> (r: ApiRequest<S>)
        ensures
            r.is_to(Method::Post, "/user/register"@, true),
            r.body == request,
    ;

    /// Send password reset email
    fn send_reset_email<S>(&self, request: S) -> (r: ApiRequest<S>)
        ensures
            r.is_to(Method::Post, "/user/reset"@, true),
            r.body == request,
    ;

    /// Reset password with secret
    fn reset_password<S>(&self, request: S) -> (r: ApiRequest<S>)
        ensures
            r.is_to(Method::Post, "/user/reset/confirm"@, true),
            r.body == request,
    ;

    /// Get user storage policies
    fn get_user_storage_policies(&self) -> (r: ApiRequest<()>)
        ensures
            r.is_to(Method::Get, "/user/setting/policies"@, false),
    ;
}

/// A client. What it asks does not depend on which server it asks.
#[derive(Debug, Clone, Copy)]
pub struct Client {}

fn request<B>(method: Method, path: &str, body: B, no_credential: bool) -> (r: ApiRequest<B>)
    ensures
        r.is_to(method, path@, no_credential),
        r.body == body,
{
    ApiRequest { method, path: path.to_owned(), body, no_credential }
}

impl UserApi for Client {
    fn login(&self, email: &str, password: &str) -> (r: ApiRequest<PasswordLoginRequest>) {
        let body: PasswordLoginRequest = PasswordLoginRequest {
            email: email.to_owned(),
            password: password.to_owned(),
            captcha: None,
        };
        request(Method::Post, "/session/token", body, true)
    }

    fn login_2fa(&self, otp: &str, session_id: &str) -> (r: ApiRequest<TwoFALoginRequest>) {
        let body: TwoFALoginRequest = TwoFALoginRequest {
            otp: otp.to_owned(),
            session_id: session_id.to_owned(),
        };
        request(Method::Post, "/session/2fa", body, true)
    }

    fn get_user_me(&self) -> (r: ApiRequest<()>) {
        request(Method::Get, "/user/me", (), false)
    }

    fn get_user_capacity(&self) -> (r: ApiRequest<()>) {
        request(Method::Get, "/user/capacity", (), false)
    }

    fn get_user_settings(&self) -> (r: ApiRequest<()>) {
        request(Method::Get, "/user/setting", (), false)
    }

    fn patch_user_settings<S>(&self, settings: S) -> (r: ApiRequest<S>) {
        request(Method::Patch, "/user/setting", settings, false)
    }

    fn get_credit_log(&self, params: &GetCreditLogService) -> (r: ApiRequest<()>) {
        let path: String = "/user/credit/log".to_owned().concat(params.query_text().as_str());
        request(Method::Get, path.as_str(), (), false)
    }

    fn sign_up<S>(&self, request: S) -> (r: ApiRequest<S>) {
        self::request(Method::Post, "/user/register", request, true)
    }

    fn send_reset_email<S>(&self, request: S) -> (r: ApiRequest<S>) {
        self::request(Method::Post, "/user/reset", request, true)
    }

    fn reset_password<S>(&self, request: S) -> (r: ApiRequest<S>) {
        self::request(Method::Post, "/user/reset/confirm", request, true)
    }

    fn get_user_storage_policies(&self) -> (r: ApiRequest<()>) {
        request(Method::Get, "/user/setting/policies", (), false)
    }
}

/// A query lists what is given, in a fixed order, and nothing of what is not: without any
/// parameter there is none, and each one comes behind those before it.
pub proof fn queries_list_what_is_given(params: GetCreditLogService)
    ensures
        params.page_size is None && params.order_by is None && params.order_direction is None
            && params.next_page_token is None ==> params.query() == Seq::<char>::empty(),
        params.next_page_token matches Some(token) ==> ({
            let others = GetCreditLogService { next_page_token: None, ..params };
            params.query() == if others.query().len() == 0 {
                "?"@ + ("next_page_token"@ + "="@ + token@)
            } else {
                others.query() + "&"@ + ("next_page_token"@ + "="@ + token@)
            }
        }),
        params.next_page_token is None && params.order_direction is Some ==> ({
            let others = GetCreditLogService { order_direction: None, ..params };
            let value = params.order_direction->Some_0@;
            params.query() == if others.query().len() == 0 {
                "?"@ + ("order_direction"@ + "="@ + value)
            } else {
                others.query() + "&"@ + ("order_direction"@ + "="@ + value)
            }
        }),
        params.next_page_token is None && params.order_direction is None && params.order_by is Some
            ==> ({
            let others = GetCreditLogService { order_by: None, ..params };
            let value = params.order_by->Some_0@;
            params.query() == if others.query().len() == 0 {
                "?"@ + ("order_by"@ + "="@ + value)
            } else {
                others.query() + "&"@ + ("order_by"@ + "="@ + value)
            }
        }),
        params.next_page_token is None && params.order_direction is None && params.order_by is None
            && params.page_size is Some ==> params.query() == "?"@ + ("page_size"@ + "="@
            + signed_decimal(params.page_size->Some_0 as int)),
{
    reveal_strlit("?");
    if params.next_page_token is Some {
        let others = GetCreditLogService { next_page_token: None, ..params };
        let next = "next_page_token"@ + "="@ + params.next_page_token->Some_0@;
        lemma_query_of_push(others.parameters(), next);
        assert(params.parameters() =~= others.parameters().push(next));
    } else if params.order_direction is Some {
        let others = GetCreditLogService { order_direction: None, ..params };
        let next = "order_direction"@ + "="@ + params.order_direction->Some_0@;
        lemma_query_of_push(others.parameters(), next);
        assert(params.parameters() =~= others.parameters().push(next));
    } else if params.order_by is Some {
        let others = GetCreditLogService { order_by: None, ..params };
        let next = "order_by"@ + "="@ + params.order_by->Some_0@;
        lemma_query_of_push(others.parameters(), next);
        assert(params.parameters() =~= others.parameters().push(next));
    } else if params.page_size is Some {
        assert(params.parameters() =~= seq![
            "page_size"@ + "="@ + signed_decimal(params.page_size->Some_0 as int),
        ]);
    } else {
        assert(params.parameters() =~= Seq::empty());
    }
}

proof fn lemma_query_of_push(parts: Seq<Seq<char>>, next: Seq<char>)
    ensures
        "?"@ + joined(parts.push(next), "&"@) == if parts.len() == 0 {
            "?"@ + next
        } else {
            "?"@ + joined(parts, "&"@) + "&"@ + next
        },
{
    crate::text::separators_stand_between_parts(parts, "&"@, next);
    if parts.len() > 0 {
        assert("?"@ + (joined(parts, "&"@) + "&"@ + next) =~= "?"@ + joined(parts, "&"@) + "&"@
            + next);
    }
}

}
