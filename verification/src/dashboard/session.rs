//! Dashboard sessions: where a sign-in leads, and who gets in.
use crate::auth::Claims;
use crate::find::{replace, starts_with};
use crate::text::same_text;
use crate::trim::trim;
use vstd::prelude::*;

verus! {

use crate::find::replaced;
use crate::text::white_space;
use crate::trim::{all_blank, law_outer_blanks_are_trimmed, trimmed};

/// The name of the session cookie.
pub const COOKIE_NAME: &'static str = "snipdesk_dashboard";

/// Where a sign-in leads by default.
pub const HOME: &'static str = "/dashboard/users";

/// A signed-in session.
pub struct DashboardSession {
    pub claims: Claims,
}

/// A signed-in session of an admin.
pub struct DashboardAdmin {
    pub claims: Claims,
}

impl DashboardAdmin {
    /// The admin's user id.
    pub fn user_id(&self) -> (r: &str)
        ensures
            r@ == self.claims.sub@,
    {
        self.claims.sub.as_str()
    }
}

/// How long a cookie is kept.
#[derive(Copy, Clone, Debug, PartialEq, Eq, Structural)]
pub enum CookieLife {
    /// Until the browser closes.
    BrowserSession,
    /// Not at all: the browser drops it.
    Removed,
}

/// A session cookie, attribute by attribute.
pub struct SessionCookie {
    pub value: String,
    pub http_only: bool,
    pub same_site_lax: bool,
    pub secure: bool,
    pub life: CookieLife,
}

/// The cookie that carries a token after a sign-in. It goes with the browser
/// session; `secure` is the operator's choice.
pub fn build_cookie(token: String, secure: bool) -> (r: SessionCookie)
    ensures
        r.value@ == token@,
        r.http_only,
        r.same_site_lax,
        r.secure == secure,
        r.life == CookieLife::BrowserSession,
{
    SessionCookie {
        value: token,
        http_only: true,
        same_site_lax: true,
        secure,
        life: CookieLife::BrowserSession,
    }
}

/// The cookie that removes a session cookie.
pub fn clear_cookie() -> (r: SessionCookie)
    ensures
        r.value@.len() == 0,
        r.http_only,
        r.same_site_lax,
        !r.secure,
        r.life == CookieLife::Removed,
{
    SessionCookie {
        value: String::new(),
        http_only: true,
        same_site_lax: true,
        secure: false,
        life: CookieLife::Removed,
    }
}

/// How a request without a session is sent elsewhere.
#[derive(Copy, Clone, Debug, PartialEq, Eq, Structural)]
pub enum AuthRedirect {
    /// A plain redirect.
    Redirect,
    /// A header that has htmx navigate the whole page, so that the target does not
    /// land inside the fragment that was being refreshed.
    HtmxHeader,
}

/// How to redirect, by the request's `HX-Request` header.
pub fn auth_redirect(hx_request: Option<&str>) -> (r: AuthRedirect)
    ensures
        r == (if hx_request matches Some(v) && v@ == "true"@ {
            AuthRedirect::HtmxHeader
        } else {
            AuthRedirect::Redirect
        }),
{
    match hx_request {
        Some(v) => if same_text(v, "true") {
            AuthRedirect::HtmxHeader
        } else {
            AuthRedirect::Redirect
        },
        None => AuthRedirect::Redirect,
    }
}

/// What becomes of a dashboard request.
pub enum Admission {
    /// An admin's session.
    Admin(DashboardAdmin),
    /// Signed in, but not as an admin.
    MemberBlocked,
}

/// Lets admins in; members see a page that says so.
pub fn let_in(session: DashboardSession) -> (r: Admission)
    ensures
        match r {
            Admission::Admin(a) => session.claims.role@ == "admin"@ && a.claims == session.claims,
            Admission::MemberBlocked => session.claims.role@ != "admin"@,
        },
{
    if same_text(session.claims.role.as_str(), "admin") {
        Admission::Admin(DashboardAdmin { claims: session.claims })
    } else {
        Admission::MemberBlocked
    }
}

/// The page for members, with the brand's name put in.
pub fn member_blocked_page(template: &str, brand_name: &str) -> (r: String)
    ensures
        r@ == replaced(template@, "{{BRAND_NAME}}"@, brand_name@),
{
    proof {
        reveal_strlit("{{BRAND_NAME}}");
    }
    replace(template, "{{BRAND_NAME}}", brand_name)
}

/// Where a sign-in leads: the given path where it stays on this host, else home.
pub open spec fn next_path(raw: Option<Seq<char>>) -> Seq<char> {
    let t = match raw {
        Some(s) => trimmed(s),
        None => trimmed(HOME@),
    };
    if !"/"@.is_prefix_of(t) || "//"@.is_prefix_of(t) {
        HOME@
    } else {
        t
    }
}

/// Where a sign-in leads. A path that would leave this host is not followed.
pub fn safe_next(raw: Option<&str>) -> (r: String)
    ensures
        r@ == next_path(crate::text::opt_str_view(raw)),
{
    let t = match raw {
        Some(s) => trim(s),
        None => trim(HOME),
    };
    if !starts_with(t.as_str(), "/") || starts_with(t.as_str(), "//") {
        return HOME.to_owned();
    }
    t
}

/// A sign-in never leads off this host: the path starts with exactly one slash.
pub proof fn law_sign_in_stays_on_host(raw: Option<Seq<char>>)
    ensures
        "/"@.is_prefix_of(next_path(raw)),
        !"//"@.is_prefix_of(next_path(raw)),
{
    reveal_strlit("/");
    reveal_strlit("//");
    reveal_strlit("/dashboard/users");
    assert("/"@.is_prefix_of(HOME@));
    assert(!"//"@.is_prefix_of(HOME@)) by {
        assert(HOME@.subrange(0, 2)[1] == 'd');
        assert("//"@[1] == '/');
    }
}

/// Who the navigation bar names: the user's row, or placeholders where it cannot
/// be read.
pub fn nav_user(row: Option<(String, String)>, claims: &Claims) -> (r: (String, String))
    ensures
        match row {
            Some(x) => r.0@ == x.0@ && r.1@ == x.1@,
            None => r.0@ == "?"@ && r.1@ == claims.role@,
        },
{
    match row {
        Some(x) => x,
        None => ("?".to_owned(), crate::text::copy_text(claims.role.as_str())),
    }
}

/// A path on this host is followed, without the blanks around it; what begins otherwise, or
/// with two slashes, leads home, and so does no path at all.
pub proof fn law_local_paths_are_followed(a: Seq<char>, p: Seq<char>, b: Seq<char>)
    requires
        all_blank(a),
        all_blank(b),
        p.len() > 0,
        !white_space(p[0]),
        !white_space(p.last()),
    ensures
        p[0] == '/' && (p.len() > 1 ==> p[1] != '/') ==> next_path(Some(a + p + b)) == p,
        p[0] != '/' || (p.len() > 1 && p[1] == '/') ==> next_path(Some(a + p + b))
            == "/dashboard/users"@,
        next_path(None) == "/dashboard/users"@,
{
    reveal_strlit("/");
    reveal_strlit("//");
    reveal_strlit("/dashboard/users");
    law_outer_blanks_are_trimmed(a, p, b);
    let home = "/dashboard/users"@;
    let e = Seq::<char>::empty();
    law_outer_blanks_are_trimmed(e, home, e);
    assert(e + home + e =~= home);
    if p.len() > 1 {
        assert(p.subrange(0, 2)[1] == p[1]);
        assert("//"@[1] == '/');
        if p[0] == '/' && p[1] == '/' {
            assert(p.subrange(0, 2) =~= "//"@);
        }
    }
    assert(p.subrange(0, 1)[0] == p[0]);
    if p[0] == '/' {
        assert(p.subrange(0, 1) =~= "/"@);
    } else {
        assert("/"@[0] == '/');
    }
}

} // verus!
