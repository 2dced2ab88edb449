//! Signing in, and setting up the first account.
use crate::audit::action::USER_CREATE;
use crate::audit::{event_of, Actor, AuditEvent, Detail};
use crate::auth::{hash_password, issue_token, verify_password_constant_time};
use crate::clock::unix_now;
use crate::dashboard::forms::{IndexQuery, LoginForm, SetupForm};
use crate::dashboard::session::{build_cookie, safe_next, SessionCookie, HOME};
use crate::dashboard::users::{normalize_email, MIN_PASSWORD_LEN};
use crate::find::replace;
use crate::html::{escape_html, render};
use crate::ident::new_uuid;
use crate::text::{at_least_bytes, copy_text, same_text};
use crate::trim::trim;
use vstd::prelude::*;

verus! {

use crate::audit::{detail_views, event_by, DetailView, EventView};
use crate::auth::{issue_outcome, issued_at, password_accepted, MAX_PASSWORD_BYTES};
use crate::dashboard::session::{next_path, CookieLife};
use crate::dashboard::users::stored_email;
use crate::find::replaced;
use crate::html::{entries, escaped, rendered};
use crate::ident::uuid_form;
use crate::text::{byte_count, opt_str_view, opt_view};
use crate::trim::{all_blank, law_blank_texts, trimmed};

/// How people can sign in here.
#[derive(Debug)]
pub struct SignInSite {
    pub brand_name: String,
    /// Whether passwords are accepted at all.
    pub password_enabled: bool,
    /// Whether Google is set up as an identity provider.
    pub google: bool,
    /// Whether Keycloak is set up, and the label it was given.
    pub keycloak: Option<Option<String>>,
}

/// An identity provider: its id, and what its button says.
#[derive(Debug)]
pub struct Provider {
    pub id: String,
    pub label: String,
}

/// What Google's button says.
pub const GOOGLE_LABEL: &'static str = "Sign in with Google";

/// What Keycloak's button says unless it was given a label.
pub const KEYCLOAK_LABEL: &'static str = "Sign in with Keycloak";

/// The providers of a site, as pairs of id and label.
pub open spec fn providers(s: SignInSite) -> Seq<(Seq<char>, Seq<char>)> {
    let google = if s.google {
        seq![("google"@, GOOGLE_LABEL@)]
    } else {
        Seq::empty()
    };
    match s.keycloak {
        Some(label) => google.push(
            (
                "keycloak"@,
                match label {
                    Some(l) => l@,
                    None => KEYCLOAK_LABEL@,
                },
            ),
        ),
        None => google,
    }
}

/// What a list of providers holds.
pub open spec fn provider_views(l: Seq<Provider>) -> Seq<(Seq<char>, Seq<char>)> {
    Seq::new(l.len(), |i: int| (l[i].id@, l[i].label@))
}

/// The providers of a site, in the order of their buttons.
pub fn configured_dashboard_sso(s: &SignInSite) -> (r: Vec<Provider>)
    ensures
        provider_views(r@) == providers(*s),
{
    let mut l: Vec<Provider> = Vec::new();
    if s.google {
        l.push(Provider { id: "google".to_owned(), label: GOOGLE_LABEL.to_owned() });
    }
    if let Some(label) = &s.keycloak {
        let text = match label {
            Some(t) => copy_text(t.as_str()),
            None => KEYCLOAK_LABEL.to_owned(),
        };
        l.push(Provider { id: "keycloak".to_owned(), label: text });
    }
    assert(provider_views(l@) =~= providers(*s));
    l
}

/// The line between the password form and the buttons.
pub const SSO_DIVIDER: &'static str = "<div class=\"sso-divider\"><span>or</span></div>";

/// The button of a provider.
pub open spec fn button_html(id: Seq<char>, label: Seq<char>, next: Seq<char>) -> Seq<char> {
    "<a class=\"sso-button\" href=\"/dashboard/oidc/"@
        + escaped(id)
        + "/start?redirect_to="@
        + escaped(next)
        + "\">"@
        + escaped(label)
        + "</a>"@
}

/// The button of a provider.
fn button_text(id: &str, label: &str, next: &str) -> (r: String)
    ensures
        r@ == button_html(id@, label@, next@),
{
    let id_e = escape_html(id);
    let next_e = escape_html(next);
    let label_e = escape_html(label);
    let mut out: String = "<a class=\"sso-button\" href=\"/dashboard/oidc/".to_owned();
    out.push_str(id_e.as_str());
    out.push_str("/start?redirect_to=");
    out.push_str(next_e.as_str());
    out.push_str("\">");
    out.push_str(label_e.as_str());
    out.push_str("</a>");
    out
}

/// The buttons of providers.
pub open spec fn buttons(l: Seq<(Seq<char>, Seq<char>)>, next: Seq<char>) -> Seq<char>
    decreases l.len(),
{
    if l.len() == 0 {
        Seq::empty()
    } else {
        buttons(l.drop_last(), next) + button_html(l.last().0, l.last().1, next)
    }
}

/// What the buttons stand in.
pub const SSO_OPEN: &'static str =
    "<div class=\"sso-section\"><div class=\"sso-divider\"><span>or</span></div><div \
        class=\"sso-buttons\">";

/// The section with the buttons; empty where there are none.
pub open spec fn sso_section(s: SignInSite, next: Seq<char>) -> Seq<char> {
    if providers(s).len() == 0 {
        Seq::empty()
    } else {
        SSO_OPEN@ + buttons(providers(s), next) + "</div></div>"@
    }
}

/// The section with the buttons; empty where there are none.
pub fn render_dashboard_sso_buttons(s: &SignInSite, redirect_to: &str) -> (r: String)
    ensures
        r@ == sso_section(*s, redirect_to@),
{
    let l: Vec<Provider> = configured_dashboard_sso(s);
    let n: usize = l.len();
    let ghost all = providers(*s);
    assert(provider_views(l@).len() == l@.len());
    let mut out: String = String::new();
    if n == 0 {
        assert(out@ =~= Seq::<char>::empty());
        return out;
    }
    let mut row: String = String::new();
    assert(all.take(0) =~= Seq::<(Seq<char>, Seq<char>)>::empty());
    assert(row@ =~= Seq::<char>::empty());
    for i in 0..n
        invariant
            n == l@.len(),
            provider_views(l@) == all,
            row@ == buttons(all.take(i as int), redirect_to@),
    {
        proof {
            let t = all.take(i + 1);
            assert(t.drop_last() =~= all.take(i as int));
            assert(t.last() == all[i as int]);
            assert(all[i as int] == (l@[i as int].id@, l@[i as int].label@));
        }
        let b = button_text(l[i].id.as_str(), l[i].label.as_str(), redirect_to);
        row.push_str(b.as_str());
    }
    assert(all.take(n as int) =~= all);
    out = SSO_OPEN.to_owned();
    out.push_str(row.as_str());
    out.push_str("</div></div>");
    out
}

/// The section without its divider, for a page without a password form.
pub fn strip_sso_divider(sso: &str) -> (r: String)
    ensures
        r@ == replaced(sso@, SSO_DIVIDER@, ""@),
{
    proof {
        reveal_strlit("<div class=\"sso-divider\"><span>or</span></div>");
    }
    replace(sso, SSO_DIVIDER, "")
}

/// The form for email and password.
pub open spec fn password_form_html(next: Seq<char>) -> Seq<char> {
    "<form method=\"post\" action=\"/dashboard/login\" class=\"stack\"><input \
            type=\"hidden\" name=\"redirect_to\" value=\""@
        + escaped(next)
        + "\" /><label>Email<input type=\"email\" name=\"email\" autocomplete=\"username\" \
            required autofocus /></label><label>Password<input type=\"password\" name=\"password\" \
            autocomplete=\"current-password\" required /></label><button type=\"submit\" \
            class=\"primary\">Sign in</button></form>"@
}

/// The form for email and password.
fn password_form_text(next: &str) -> (r: String)
    ensures
        r@ == password_form_html(next@),
{
    let next_e = escape_html(next);
    let mut out: String = "<form method=\"post\" action=\"/dashboard/login\" class=\"stack\"><input \
                type=\"hidden\" name=\"redirect_to\" value=\"".to_owned();
    out.push_str(next_e.as_str());
    out.push_str("\" /><label>Email<input type=\"email\" name=\"email\" autocomplete=\"username\" \
                required autofocus /></label><label>Password<input type=\"password\" \
                name=\"password\" autocomplete=\"current-password\" required /></label><button \
                type=\"submit\" class=\"primary\">Sign in</button></form>");
    out
}

/// The banner above the sign-in form.
pub open spec fn sign_in_banner(expired: bool, error: Option<Seq<char>>) -> Seq<char> {
    if expired {
        BANNER_EXPIRED@
    } else if error == Some("invalid"@) {
        BANNER_INVALID@
    } else if error == Some("disabled"@) {
        BANNER_DISABLED@
    } else if error == Some("signin"@) {
        BANNER_SIGN_IN@
    } else {
        ""@
    }
}

/// A session that ended.
pub const BANNER_EXPIRED: &'static str =
    "<div class=\"banner info\">Your session expired. Sign in again.</div>";

/// A wrong email or password.
pub const BANNER_INVALID: &'static str =
    "<div class=\"banner error\">Invalid email or password.</div>";

/// An account that is disabled.
pub const BANNER_DISABLED: &'static str =
    "<div class=\"banner error\">Your account is disabled. Contact your administrator.</div>";

/// A sign-in that failed.
pub const BANNER_SIGN_IN: &'static str =
    "<div class=\"banner error\">Sign-in failed. Try again or contact your administrator.</div>";

fn is_error(e: Option<&str>, code: &str) -> (r: bool)
    ensures
        r == (opt_str_view(e) == Some(code@)),
{
    match e {
        Some(s) => same_text(s, code),
        None => false,
    }
}

fn borrow(s: &Option<String>) -> (r: Option<&str>)
    ensures
        opt_str_view(r) == opt_view(*s),
{
    match s {
        Some(t) => Some(t.as_str()),
        None => None,
    }
}

/// What the slots of the sign-in page are filled with.
pub open spec fn sign_in_slots(s: SignInSite, q: IndexQuery) -> Seq<(Seq<char>, Seq<char>)> {
    let next = next_path(opt_view(q.redirect_to));
    let sso = sso_section(s, next);
    seq![
        ("BANNER"@, sign_in_banner(q.expired is Some, opt_view(q.error))),
        ("BRAND_NAME"@, escaped(s.brand_name@)),
        (
            "PASSWORD_FORM"@,
            if s.password_enabled {
                password_form_html(next)
            } else {
                Seq::empty()
            },
        ),
        (
            "SSO_BUTTONS"@,
            if s.password_enabled {
                sso
            } else {
                replaced(sso, SSO_DIVIDER@, ""@)
            },
        ),
    ]
}

/// The sign-in page. Where passwords are off, the form is gone and the buttons
/// stand without their divider.
pub fn sign_in_page(template: &str, s: &SignInSite, q: &IndexQuery) -> (r: String)
    ensures
        r@ == rendered(template@, sign_in_slots(*s, *q)),
{
    let error = borrow(&q.error);
    let banner = if q.expired.is_some() {
        BANNER_EXPIRED
    } else if is_error(error, "invalid") {
        BANNER_INVALID
    } else if is_error(error, "disabled") {
        BANNER_DISABLED
    } else if is_error(error, "signin") {
        BANNER_SIGN_IN
    } else {
        ""
    };
    let next = safe_next(borrow(&q.redirect_to));
    let sso = render_dashboard_sso_buttons(s, next.as_str());
    let form = if s.password_enabled {
        password_form_text(next.as_str())
    } else {
        String::new()
    };
    assert(!s.password_enabled ==> form@ =~= Seq::<char>::empty());
    let sso = if s.password_enabled {
        sso
    } else {
        strip_sso_divider(sso.as_str())
    };
    let brand = escape_html(s.brand_name.as_str());
    let slots: [(&str, &str); 4] = [
        ("BANNER", banner),
        ("BRAND_NAME", brand.as_str()),
        ("PASSWORD_FORM", form.as_str()),
        ("SSO_BUTTONS", sso.as_str()),
    ];
    assert(entries(slots@) =~= sign_in_slots(*s, *q));
    render(template, slots.as_slice())
}

/// What the front page shows.
#[derive(Copy, Clone, Debug, PartialEq, Eq, Structural)]
pub enum FrontPage {
    /// The form for the first account: there is none yet.
    Setup,
    /// The dashboard: someone is signed in.
    Home,
    /// The sign-in form.
    SignIn,
}

/// What the front page shows. Where the accounts cannot be counted, they are
/// taken to exist.
pub fn index(user_count: Option<i64>, signed_in: bool) -> (r: FrontPage)
    ensures
        r == (if user_count == Some(0i64) {
            FrontPage::Setup
        } else if signed_in {
            FrontPage::Home
        } else {
            FrontPage::SignIn
        }),
{
    if let Some(n) = user_count {
        if n == 0 {
            return FrontPage::Setup;
        }
    }
    if signed_in {
        FrontPage::Home
    } else {
        FrontPage::SignIn
    }
}

/// The form for the first account.
pub const SETUP_FORM: &'static str =
    "<form method=\"post\" action=\"/dashboard/setup\" class=\"stack\"><label>Your name<input \
        type=\"text\" name=\"display_name\" autocomplete=\"name\" required autofocus /></label>\
        <label>Email<input type=\"email\" name=\"email\" autocomplete=\"username\" required />\
        </label><label>Password (10+ characters)<input type=\"password\" name=\"password\" \
        autocomplete=\"new-password\" minlength=\"10\" required /></label><button type=\"submit\" \
        class=\"primary\">Create admin account</button></form>";

/// An email that is none.
pub const BANNER_SETUP_EMAIL: &'static str =
    "<div class=\"banner error\">That doesn't look like an email address.</div>";

/// A password that is too short.
pub const BANNER_SETUP_PASSWORD: &'static str =
    "<div class=\"banner error\">Password must be at least 10 characters.</div>";

/// A name that is missing.
pub const BANNER_SETUP_NAME: &'static str =
    "<div class=\"banner error\">Enter a display name.</div>";

/// A setup that failed.
pub const BANNER_SETUP_FAILED: &'static str =
    "<div class=\"banner error\">Setup failed. Check the server logs and try again.</div>";

/// A sign-in that failed before there was an account.
pub const BANNER_SETUP_SIGN_IN: &'static str =
    "<div class=\"banner error\">Sign-in failed. Try again or check the server logs.</div>";

/// A session from before the accounts were lost.
pub const BANNER_SETUP_STALE: &'static str =
    "<div class=\"banner info\">Your previous session is no longer valid - this server has no \
        accounts yet. Create or sign in the first one below.</div>";

/// That an identity provider works too.
pub const SETUP_SSO_NOTE: &'static str =
    "<p class=\"sub\">Signing in through your identity provider also works: the first account \
        to sign in becomes the administrator.</p>";

/// That only an identity provider works.
pub const SETUP_SSO_ONLY_NOTE: &'static str =
    "<p class=\"sub\">This server is SSO-only. Sign in through your identity provider; the \
        first account becomes the administrator.</p>";

/// The banner above the setup form.
pub open spec fn setup_banner(error: Option<Seq<char>>, expired: bool) -> Seq<char> {
    if error == Some("setup_email"@) {
        BANNER_SETUP_EMAIL@
    } else if error == Some("setup_password"@) {
        BANNER_SETUP_PASSWORD@
    } else if error == Some("setup_name"@) {
        BANNER_SETUP_NAME@
    } else if error == Some("setup_failed"@) {
        BANNER_SETUP_FAILED@
    } else if error == Some("signin"@) {
        BANNER_SETUP_SIGN_IN@
    } else if expired {
        BANNER_SETUP_STALE@
    } else {
        ""@
    }
}

/// What the setup page says of identity providers.
pub open spec fn setup_sso(s: SignInSite) -> Seq<char> {
    let sso = sso_section(s, "/"@);
    if sso.len() == 0 {
        Seq::empty()
    } else if s.password_enabled {
        sso + SETUP_SSO_NOTE@
    } else {
        replaced(sso, SSO_DIVIDER@, ""@) + SETUP_SSO_ONLY_NOTE@
    }
}

/// What the slots of the setup page are filled with.
pub open spec fn setup_slots(s: SignInSite, error: Option<Seq<char>>, expired: bool) -> Seq<
    (Seq<char>, Seq<char>),
> {
    seq![
        ("BANNER"@, setup_banner(error, expired)),
        ("BRAND_NAME"@, escaped(s.brand_name@)),
        (
            "PASSWORD_FORM"@,
            if s.password_enabled {
                SETUP_FORM@
            } else {
                ""@
            },
        ),
        ("SSO_BUTTONS"@, setup_sso(s)),
    ]
}

/// The page that makes the first account.
pub fn render_setup_page(template: &str, s: &SignInSite, error: Option<&str>, expired: bool) -> (r:
    String)
    ensures
        r@ == rendered(template@, setup_slots(*s, opt_str_view(error), expired)),
{
    let banner = if is_error(error, "setup_email") {
        BANNER_SETUP_EMAIL
    } else if is_error(error, "setup_password") {
        BANNER_SETUP_PASSWORD
    } else if is_error(error, "setup_name") {
        BANNER_SETUP_NAME
    } else if is_error(error, "setup_failed") {
        BANNER_SETUP_FAILED
    } else if is_error(error, "signin") {
        BANNER_SETUP_SIGN_IN
    } else if expired {
        BANNER_SETUP_STALE
    } else {
        ""
    };
    let form = if s.password_enabled {
        SETUP_FORM
    } else {
        ""
    };
    let mut sso = render_dashboard_sso_buttons(s, "/");
    if sso.as_str().unicode_len() == 0 {
        assert(sso@ =~= Seq::<char>::empty());
    } else if s.password_enabled {
        sso.push_str(SETUP_SSO_NOTE);
    } else {
        sso = strip_sso_divider(sso.as_str());
        sso.push_str(SETUP_SSO_ONLY_NOTE);
    }
    let brand = escape_html(s.brand_name.as_str());
    let slots: [(&str, &str); 4] = [
        ("BANNER", banner),
        ("BRAND_NAME", brand.as_str()),
        ("PASSWORD_FORM", form),
        ("SSO_BUTTONS", sso.as_str()),
    ];
    assert(entries(slots@) =~= setup_slots(*s, opt_str_view(error), expired));
    render(template, slots.as_slice())
}

/// A user's row, as far as a sign-in needs it.
#[derive(Debug)]
pub struct LoginRow {
    pub id: String,
    pub role: String,
    pub password_hash: Option<String>,
    pub is_disabled: i64,
}

/// What a sign-in comes to.
pub enum SignIn {
    /// Back to the front page, with a reason.
    Refused(&'static str),
    /// In, with a cookie and on to a page.
    Welcome { user_id: String, cookie: SessionCookie, next: String },
}

/// Whether the password of a form is the one of a row. Without a row or a hash
/// none is.
pub open spec fn password_fits(form: LoginForm, row: Option<LoginRow>) -> bool {
    match row {
        Some(r) => password_accepted(form.password@, opt_view(r.password_hash)),
        None => false,
    }
}

/// Whether a token was issued to this user at some time.
pub open spec fn issued(
    token: Seq<char>,
    secret: Seq<char>,
    id: Seq<char>,
    role: Seq<char>,
) -> bool {
    exists|now: i64| #[trigger] issued_at(token, secret, id, role, now)
}

/// A sign-in with email and password, given the row of that email. The wrong
/// password, an unknown email and an account without a password are told apart
/// by nothing.
pub fn login_submit(
    form: &LoginForm,
    row: Option<LoginRow>,
    password_enabled: bool,
    jwt_secret: &str,
    secure_cookies: bool,
) -> (r: SignIn)
    ensures
        !password_enabled ==> (r matches SignIn::Refused(to) && to@ == "/?error=signin"@),
        password_enabled && !password_fits(*form, row) ==> (r matches SignIn::Refused(to) && to@
            == "/?error=invalid"@),
        password_enabled && password_fits(*form, row) && row->0.is_disabled != 0 ==> (
        r matches SignIn::Refused(to) && to@ == "/?error=disabled"@),
        password_enabled && password_fits(*form, row) && row->0.is_disabled == 0 ==> match r {
            SignIn::Refused(to) => jwt_secret@.len() == 0 && to@ == "/?error=invalid"@,
            SignIn::Welcome { user_id, cookie, next } => {
                &&& jwt_secret@.len() > 0
                &&& user_id@ == row->0.id@
                &&& issued(cookie.value@, jwt_secret@, row->0.id@, row->0.role@)
                &&& next@ == next_path(opt_view(form.redirect_to))
                &&& cookie.secure == secure_cookies
                &&& cookie.http_only
                &&& cookie.same_site_lax
                &&& cookie.life == CookieLife::BrowserSession
            },
        },
{
    if !password_enabled {
        return SignIn::Refused("/?error=signin");
    }
    let ok = match &row {
        Some(r) => verify_password_constant_time(form.password.as_str(), borrow(&r.password_hash)),
        None => verify_password_constant_time(form.password.as_str(), None),
    };
    let r = match row {
        Some(r) => r,
        None => {
            return SignIn::Refused("/?error=invalid");
        },
    };
    if !ok {
        return SignIn::Refused("/?error=invalid");
    }
    if r.is_disabled != 0 {
        return SignIn::Refused("/?error=disabled");
    }
    let made = issue_token(r.id.as_str(), r.role.as_str(), jwt_secret);
    let ghost now = choose|now: i64| #[trigger] issue_outcome(
        made,
        r.id@,
        r.role@,
        jwt_secret@,
        now,
    );
    let token = match made {
        Ok(t) => {
            assert(issued_at(t@, jwt_secret@, r.id@, r.role@, now));
            t
        },
        Err(_) => {
            return SignIn::Refused("/?error=invalid");
        },
    };
    let next = safe_next(borrow(&form.redirect_to));
    SignIn::Welcome { user_id: r.id, cookie: build_cookie(token, secure_cookies), next }
}

/// The account that the setup form asks for.
#[derive(Debug)]
pub struct FirstAccount {
    pub email: String,
    pub display_name: String,
}

/// Why the setup form is not taken; none where it is.
pub open spec fn setup_fault(f: SetupForm, password_enabled: bool, email_ok: bool) -> Option<
    Seq<char>,
> {
    if !password_enabled {
        Some("/?error=setup_failed"@)
    } else if !email_ok {
        Some("/?error=setup_email"@)
    } else if byte_count(f.password@) < MIN_PASSWORD_LEN {
        Some("/?error=setup_password"@)
    } else if trimmed(f.display_name@).len() == 0 {
        Some("/?error=setup_name"@)
    } else {
        None
    }
}

/// The account that the setup form asks for, or where to go back to. `email_ok`
/// tells whether the email looks like one.
pub fn check_setup(f: &SetupForm, password_enabled: bool, email_ok: bool) -> (r: Result<
    FirstAccount,
    &'static str,
>)
    ensures
        match r {
            Ok(a) => setup_fault(*f, password_enabled, email_ok) is None && a.email@
                == stored_email(f.email@) && a.display_name@ == trimmed(f.display_name@),
            Err(to) => setup_fault(*f, password_enabled, email_ok) == Some(to@),
        },
{
    if !password_enabled {
        return Err("/?error=setup_failed");
    }
    let email = normalize_email(f.email.as_str());
    let display_name = trim(f.display_name.as_str());
    if !email_ok {
        return Err("/?error=setup_email");
    }
    if !at_least_bytes(f.password.as_str(), MIN_PASSWORD_LEN) {
        return Err("/?error=setup_password");
    }
    if display_name.as_str().unicode_len() == 0 {
        return Err("/?error=setup_name");
    }
    Ok(FirstAccount { email, display_name })
}

/// Where the setup form leads, by the number of rows it added: on, or to the
/// sign-in form where someone else was first.
pub fn setup_landed(rows_added: u64) -> (r: Option<&'static str>)
    ensures
        r is None <==> rows_added == 1,
        r matches Some(to) ==> to@ == "/"@,
{
    if rows_added == 1 {
        None
    } else {
        Some("/")
    }
}

/// What the log keeps of the first account.
pub open spec fn first_account_details(email: Seq<char>) -> Seq<(Seq<char>, DetailView)> {
    seq![
        ("email"@, DetailView::Text(email)),
        ("role"@, DetailView::Text("admin"@)),
        ("via"@, DetailView::Text("dashboard_setup"@)),
    ]
}

fn first_account_event(actor: &Actor) -> (r: AuditEvent)
    ensures
        r@.wf(),
        r@ == event_by(
            *actor,
            USER_CREATE@,
            "user"@,
            Some(actor.id@),
            Some(first_account_details(actor.email@)),
        ),
{
    let mut l: Vec<(&'static str, Detail)> = Vec::new();
    l.push(("email", Detail::Text(copy_text(actor.email.as_str()))));
    l.push(("role", Detail::Text("admin".to_owned())));
    l.push(("via", Detail::Text("dashboard_setup".to_owned())));
    proof {
        reveal_strlit("via");
        reveal_strlit("email");
        reveal_strlit("role");
        assert("via"@.len() == 3 && "email"@.len() == 5 && "role"@.len() == 4);
        assert(detail_views(l@) =~= first_account_details(actor.email@));
    }
    event_of(actor, USER_CREATE, "user", Some(copy_text(actor.id.as_str())), Some(l))
}

/// The first account, to be stored unless there is one by now, and what the log is
/// told of it.
#[derive(Debug)]
pub struct Setup {
    pub id: String,
    pub account: FirstAccount,
    pub password_hash: String,
    pub at: i64,
    pub event: AuditEvent,
}

/// Makes the account that the setup form asks for, or says where to go back to. The
/// account gets an id of its own and a hash that its password fits, and is the one
/// that the log names as its own maker. A form without fault fails only on a password that
/// is too long to be hashed.
pub fn setup_submit(f: &SetupForm, password_enabled: bool, email_ok: bool) -> (r: Result<
    Setup,
    &'static str,
>)
    ensures
        match r {
            Ok(s) => {
                &&& setup_fault(*f, password_enabled, email_ok) is None
                &&& byte_count(f.password@) <= MAX_PASSWORD_BYTES
                &&& uuid_form(s.id@)
                &&& s.account.email@ == stored_email(f.email@)
                &&& s.account.display_name@ == trimmed(f.display_name@)
                &&& password_accepted(f.password@, Some(s.password_hash@))
                &&& s.event@.wf()
                &&& s.event@ == (EventView {
                    actor_id: Some(s.id@),
                    actor_email: s.account.email@,
                    action: USER_CREATE@,
                    target_kind: Some("user"@),
                    target_id: Some(s.id@),
                    details: Some(first_account_details(s.account.email@)),
                })
            },
            Err(to) => match setup_fault(*f, password_enabled, email_ok) {
                Some(fault) => to@ == fault,
                None => byte_count(f.password@) > MAX_PASSWORD_BYTES && to@
                    == "/?error=setup_failed"@,
            },
        },
{
    let account = match check_setup(f, password_enabled, email_ok) {
        Ok(a) => a,
        Err(to) => {
            return Err(to);
        },
    };
    let password_hash = match hash_password(f.password.as_str()) {
        Ok(h) => h,
        Err(_) => {
            return Err("/?error=setup_failed");
        },
    };
    let id = new_uuid();
    let actor = Actor { id: copy_text(id.as_str()), email: copy_text(account.email.as_str()) };
    let event = first_account_event(&actor);
    Ok(Setup { id, account, password_hash, at: unix_now(), event })
}

/// Where the setup form leads once the account is stored: in, with a session, or to
/// the sign-in form where no token could be made.
pub fn setup_welcome(id: &str, jwt_secret: &str, secure_cookies: bool) -> (r: SignIn)
    ensures
        match r {
            SignIn::Refused(to) => jwt_secret@.len() == 0 && to@ == "/"@,
            SignIn::Welcome { user_id, cookie, next } => {
                &&& jwt_secret@.len() > 0
                &&& user_id@ == id@
                &&& issued(cookie.value@, jwt_secret@, id@, "admin"@)
                &&& next@ == HOME@
                &&& cookie.secure == secure_cookies
                &&& cookie.http_only
                &&& cookie.same_site_lax
                &&& cookie.life == CookieLife::BrowserSession
            },
        },
{
    let made = issue_token(id, "admin", jwt_secret);
    let ghost now = choose|now: i64| #[trigger] issue_outcome(
        made,
        id@,
        "admin"@,
        jwt_secret@,
        now,
    );
    match made {
        Ok(t) => {
            assert(issued_at(t@, jwt_secret@, id@, "admin"@, now));
            SignIn::Welcome {
                user_id: copy_text(id),
                cookie: build_cookie(t, secure_cookies),
                next: HOME.to_owned(),
            }
        },
        Err(_) => SignIn::Refused("/"),
    }
}

/// The identity providers that are set up are offered, and no other, each under its label.
pub proof fn law_providers_are_offered(s: SignInSite, next: Seq<char>)
    ensures
        providers(s).len() == (if s.google {
            1int
        } else {
            0
        }) + (if s.keycloak is Some {
            1int
        } else {
            0
        }),
        s.google ==> providers(s)[0] == ("google"@, "Sign in with Google"@),
        s.keycloak is Some ==> providers(s).last().0 == "keycloak"@,
        s.keycloak is Some && s.keycloak->0 is Some ==> providers(s).last().1
            == s.keycloak->0->0@,
        s.keycloak is Some && s.keycloak->0 is None ==> providers(s).last().1
            == "Sign in with Keycloak"@,
        !s.google && s.keycloak is None ==> sso_section(s, next).len() == 0,
        buttons(providers(s).push(("id"@, "label"@)), next) == buttons(providers(s), next)
            + button_html("id"@, "label"@, next),
{
    assert(providers(s).push(("id"@, "label"@)).drop_last() =~= providers(s));
}

/// The first account is made where passwords are accepted and the address, the password and
/// the name will do. The first of these that is at fault is told.
pub proof fn law_first_accounts_that_are_made(f: SetupForm)
    ensures
        setup_fault(f, true, true) is None <==> byte_count(f.password@) >= MIN_PASSWORD_LEN
            && !all_blank(f.display_name@),
        setup_fault(f, false, true) == Some("/?error=setup_failed"@),
        setup_fault(f, false, false) == Some("/?error=setup_failed"@),
        setup_fault(f, true, false) == Some("/?error=setup_email"@),
        byte_count(f.password@) < MIN_PASSWORD_LEN ==> setup_fault(f, true, true) == Some(
            "/?error=setup_password"@,
        ),
        byte_count(f.password@) >= MIN_PASSWORD_LEN && all_blank(f.display_name@) ==> setup_fault(
            f,
            true,
            true,
        ) == Some("/?error=setup_name"@),
{
    law_blank_texts(f.display_name@);
}

} // verus!
