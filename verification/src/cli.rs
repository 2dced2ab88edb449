//! Managing accounts from the server's own shell.
use crate::auth::{argon2_hash, password_error_text};
use crate::clock::format_minute;
use crate::dashboard::audit_text::capitalize;
use crate::decimal::i64_text;
use crate::text::{at_least_bytes, chars_of, copy_text, push_text, same_text, str_to_lowercase, text_between};
use crate::trim::trim;
use vstd::prelude::*;

verus! {

use crate::auth::{password_accepted, MAX_PASSWORD_BYTES};
use crate::clock::minute_stamp;
use crate::dashboard::audit_text::capitalized;
use crate::decimal::decimal_int;
use crate::find::{occurs, stands_at};
use crate::text::{byte_count, lowercase_text, opt_str_view, views, white_space};
use crate::trim::{
    all_blank,
    law_outer_blanks_are_trimmed,
    lemma_strip_back_unique,
    strip_back,
    trimmed,
};
use vstd::utf8::encode_utf8;

/// What can be done to accounts.
#[derive(Debug)]
pub enum UsersCmd {
    /// Lists every account with role, status, snippet count and last seen.
    List,
    /// Makes a user an admin.
    Promote { email: String },
    /// Makes an admin a member.
    Demote { email: String },
    /// Disables an account.
    Disable { email: String },
    /// Enables an account again.
    Enable { email: String },
    /// Deletes a user for good; asks first unless `yes`.
    Delete { email: String, yes: bool },
    /// Sets a new password, read from the standard input.
    ResetPassword { email: String, from_stdin: bool },
    /// Shows all that is known of one user.
    Info { email: String },
}

/// An account, with how many snippets it holds.
#[derive(Debug)]
pub struct UserRow {
    pub id: String,
    pub email: String,
    pub display_name: String,
    pub role: String,
    pub is_disabled: i64,
    pub last_seen_at: Option<i64>,
    pub snippet_count: i64,
}

/// The account with an email.
pub const FIND_QUERY: &'static str =
    "SELECT u.id, u.email, u.display_name, u.role, u.is_disabled, u.last_seen_at, \
        COALESCE(SUM(CASE WHEN s.is_deleted = 0 THEN 1 ELSE 0 END), 0) AS snippet_count FROM users \
        u LEFT JOIN personal_snippets s ON s.owner_id = u.id WHERE u.email = ? GROUP BY u.id";

/// All accounts, in the order in which they are listed.
pub const LIST_QUERY: &'static str =
    "SELECT u.id, u.email, u.display_name, u.role, u.is_disabled, u.last_seen_at, \
        COALESCE(SUM(CASE WHEN s.is_deleted = 0 THEN 1 ELSE 0 END), 0) AS snippet_count FROM users \
        u LEFT JOIN personal_snippets s ON s.owner_id = u.id GROUP BY u.id ORDER BY u.role DESC, \
        u.email ASC";

/// How many accounts can administrate.
pub const ADMIN_COUNT_QUERY: &'static str =
    "SELECT COUNT(*) FROM users WHERE role = 'admin' AND is_disabled = 0";

/// The oldest snippets of an account.
pub const IDS_QUERY: &'static str =
    "SELECT id, version, is_deleted FROM personal_snippets WHERE owner_id = ? ORDER BY \
        created_at ASC LIMIT 10";

/// The email that an account is looked up by.
pub open spec fn lookup_key(email: Seq<char>) -> Seq<char> {
    lowercase_text(trimmed(email))
}

/// The email that an account is looked up by.
pub fn lookup_email(email: &str) -> (r: String)
    ensures
        r@ == lookup_key(email@),
{
    let t = trim(email);
    str_to_lowercase(t.as_str())
}

/// That no account has an email.
pub open spec fn no_user(email: Seq<char>) -> Seq<char> {
    "no user with email '"@
        + email
        + "'"@
}

/// That no account has an email.
pub fn no_user_text(email: &str) -> (r: String)
    ensures
        r@ == no_user(email@),
{
    let mut out: String = "no user with email '".to_owned();
    out.push_str(email);
    out.push_str("'");
    out
}

/// Whether an account can administrate, by its role and whether it is disabled.
pub open spec fn administrates(role: Seq<char>, disabled: bool) -> bool {
    role == "admin"@ && !disabled
}

/// Why an account is left as it is.
pub open spec fn refusal(action: Seq<char>, email: Seq<char>) -> Seq<char> {
    "refusing to "@
        + action
        + " "@
        + email
        + " - they're the only active admin. Promote another user first."@
}

/// Why an account is left as it is.
fn refusal_text(action: &str, email: &str) -> (r: String)
    ensures
        r@ == refusal(action@, email@),
{
    let mut out: String = "refusing to ".to_owned();
    out.push_str(action);
    out.push_str(" ");
    out.push_str(email);
    out.push_str(" - they're the only active admin. Promote another user first.");
    out
}

/// Why an account is left as it is; none where nothing speaks against the action.
pub open spec fn guarded(
    role: Seq<char>,
    disabled: bool,
    email: Seq<char>,
    active_admins: int,
    action: Seq<char>,
) -> Option<Seq<char>> {
    if administrates(role, disabled) && active_admins <= 1 {
        Some(refusal(action, email))
    } else {
        None
    }
}

/// Refuses to take the last account that can administrate away.
pub fn guard_last_admin(target: &UserRow, active_admins: i64, action: &str) -> (r: Result<
    (),
    String,
>)
    ensures
        match r {
            Ok(()) => guarded(
                target.role@,
                target.is_disabled != 0,
                target.email@,
                active_admins as int,
                action@,
            ) is None,
            Err(m) => guarded(
                target.role@,
                target.is_disabled != 0,
                target.email@,
                active_admins as int,
                action@,
            ) == Some(m@),
        },
{
    if !same_text(target.role.as_str(), "admin") {
        return Ok(());
    }
    if target.is_disabled == 0 && active_admins <= 1 {
        return Err(refusal_text(action, target.email.as_str()));
    }
    Ok(())
}

/// A change to an account, by its id.
#[derive(Debug)]
pub enum Write {
    SetRole { id: String, role: String },
    SetDisabled { id: String, disabled: bool },
    DeleteUser { id: String },
    SetPassword { id: String, hash: String },
}

/// What a change holds.
pub enum WriteView {
    SetRole { id: Seq<char>, role: Seq<char> },
    SetDisabled { id: Seq<char>, disabled: bool },
    DeleteUser { id: Seq<char> },
    SetPassword { id: Seq<char>, hash: Seq<char> },
}

impl View for Write {
    type V = WriteView;

    open spec fn view(&self) -> WriteView {
        match self {
            Write::SetRole { id, role } => WriteView::SetRole { id: id@, role: role@ },
            Write::SetDisabled { id, disabled } => WriteView::SetDisabled {
                id: id@,
                disabled: *disabled,
            },
            Write::DeleteUser { id } => WriteView::DeleteUser { id: id@ },
            Write::SetPassword { id, hash } => WriteView::SetPassword { id: id@, hash: hash@ },
        }
    }
}

/// What comes of a command that is not refused: a message, after a change where
/// there is one.
#[derive(Debug)]
pub struct Step {
    pub write: Option<Write>,
    pub message: String,
}

/// What a step holds.
pub struct StepView {
    pub write: Option<WriteView>,
    pub message: Seq<char>,
}

impl View for Step {
    type V = StepView;

    open spec fn view(&self) -> StepView {
        StepView {
            write: match self.write {
                Some(w) => Some(w@),
                None => None,
            },
            message: self.message@,
        }
    }
}

/// What an outcome holds.
pub open spec fn outcome_view(r: Result<Step, String>) -> Result<StepView, Seq<char>> {
    match r {
        Ok(s) => Ok(s@),
        Err(m) => Err(m@),
    }
}

/// That an account is as it was asked to be.
pub open spec fn already(email: Seq<char>, state: Seq<char>) -> Seq<char> {
    email
        + " is already "@
        + state
        + "; no change."@
}

/// That an account is as it was asked to be.
fn already_text(email: &str, state: &str) -> (r: String)
    ensures
        r@ == already(email@, state@),
{
    let mut out: String = copy_text(email);
    out.push_str(" is already ");
    out.push_str(state);
    out.push_str("; no change.");
    out
}

/// That a role was set.
pub open spec fn role_set(verb: Seq<char>, email: Seq<char>, role: Seq<char>) -> Seq<char> {
    verb
        + " "@
        + email
        + " → "@
        + role
        + "."@
}

/// That a role was set.
fn role_set_text(verb: &str, email: &str, role: &str) -> (r: String)
    ensures
        r@ == role_set(verb@, email@, role@),
{
    let mut out: String = copy_text(verb);
    out.push_str(" ");
    out.push_str(email);
    out.push_str(" → ");
    out.push_str(role);
    out.push_str(".");
    out
}

/// What comes of setting the role of an account.
pub open spec fn role_step(
    u: UserRow,
    email: Seq<char>,
    role: Seq<char>,
    active_admins: int,
) -> Result<
    StepView,
    Seq<char>,
> {
    if u.role@ == role {
        Ok(StepView { write: None, message: already(email, role) })
    } else {
        match (if role == "member"@ {
            guarded(u.role@, u.is_disabled != 0, u.email@, active_admins, "demote"@)
        } else {
            None
        }) {
            Some(m) => Err(m),
            None => Ok(
                StepView {
                    write: Some(WriteView::SetRole { id: u.id@, role }),
                    message: role_set(
                        capitalized(
                            if role == "admin"@ {
                                "promoted"@
                            } else {
                                "demoted"@
                            },
                        ),
                        email,
                        role,
                    ),
                },
            ),
        }
    }
}

/// Sets the role of an account.
pub fn set_role(user: &UserRow, email: &str, role: &str, active_admins: i64) -> (r: Result<
    Step,
    String,
>)
    ensures
        outcome_view(r) == role_step(*user, email@, role@, active_admins as int),
{
    if same_text(user.role.as_str(), role) {
        return Ok(Step { write: None, message: already_text(email, role) });
    }
    if same_text(role, "member") {
        if let Err(m) = guard_last_admin(user, active_admins, "demote") {
            return Err(m);
        }
    }
    let verb = if same_text(role, "admin") {
        capitalize("promoted")
    } else {
        capitalize("demoted")
    };
    let write = Write::SetRole { id: copy_text(user.id.as_str()), role: copy_text(role) };
    Ok(Step { write: Some(write), message: role_set_text(verb.as_str(), email, role) })
}

/// That a command was carried out.
pub open spec fn done(verb: Seq<char>, email: Seq<char>) -> Seq<char> {
    verb
        + " "@
        + email
        + "."@
}

/// That a command was carried out.
fn done_text(verb: &str, email: &str) -> (r: String)
    ensures
        r@ == done(verb@, email@),
{
    let mut out: String = copy_text(verb);
    out.push_str(" ");
    out.push_str(email);
    out.push_str(".");
    out
}

/// The word for whether an account is disabled.
pub open spec fn status(disabled: bool) -> Seq<char> {
    if disabled {
        "disabled"@
    } else {
        "active"@
    }
}

fn status_of(disabled: bool) -> (r: &'static str)
    ensures
        r@ == status(disabled),
{
    if disabled {
        "disabled"
    } else {
        "active"
    }
}

/// What comes of disabling an account, or enabling it.
pub open spec fn disabled_step(
    u: UserRow,
    email: Seq<char>,
    disabled: bool,
    active_admins: int,
) -> Result<
    StepView,
    Seq<char>,
> {
    if (u.is_disabled != 0) == disabled {
        Ok(StepView { write: None, message: already(email, status(disabled)) })
    } else {
        match (if disabled {
            guarded(u.role@, u.is_disabled != 0, u.email@, active_admins, "disable"@)
        } else {
            None
        }) {
            Some(m) => Err(m),
            None => Ok(
                StepView {
                    write: Some(WriteView::SetDisabled { id: u.id@, disabled }),
                    message: done(
                        capitalized(
                            if disabled {
                                "disabled"@
                            } else {
                                "enabled"@
                            },
                        ),
                        email,
                    ),
                },
            ),
        }
    }
}

/// Disables an account, or enables it.
pub fn set_disabled(user: &UserRow, email: &str, disabled: bool, active_admins: i64) -> (r: Result<
    Step,
    String,
>)
    ensures
        outcome_view(r) == disabled_step(*user, email@, disabled, active_admins as int),
{
    if (user.is_disabled != 0) == disabled {
        return Ok(Step { write: None, message: already_text(email, status_of(disabled)) });
    }
    if disabled {
        if let Err(m) = guard_last_admin(user, active_admins, "disable") {
            return Err(m);
        }
    }
    let verb = if disabled {
        capitalize("disabled")
    } else {
        capitalize("enabled")
    };
    let write = Write::SetDisabled { id: copy_text(user.id.as_str()), disabled };
    Ok(Step { write: Some(write), message: done_text(verb.as_str(), email) })
}

/// What is asked before an account is deleted.
pub open spec fn delete_prompt(email: Seq<char>, n: i64) -> Seq<char> {
    "Delete "@
        + email
        + " permanently? This will remove "@
        + decimal_int(n as int)
        + " snippet(s). Type 'yes' to confirm: "@
}

/// What is asked before an account is deleted.
fn delete_prompt_text(email: &str, n: i64) -> (r: String)
    ensures
        r@ == delete_prompt(email@, n),
{
    let n_n = i64_text(n);
    let mut out: String = "Delete ".to_owned();
    out.push_str(email);
    out.push_str(" permanently? This will remove ");
    out.push_str(n_n.as_str());
    out.push_str(" snippet(s). Type 'yes' to confirm: ");
    out
}

/// What stands between a command and the deletion of an account.
#[derive(Debug)]
pub enum DeleteStep {
    /// The question to ask first.
    Ask(String),
    Go(Step),
}

/// What comes of deleting an account that may go.
pub open spec fn deletion(u: UserRow, email: Seq<char>) -> StepView {
    StepView {
        write: Some(WriteView::DeleteUser { id: u.id@ }),
        message: done("Deleted"@, email),
    }
}

fn deletion_of(user: &UserRow, email: &str) -> (r: Step)
    ensures
        r@ == deletion(*user, email@),
{
    Step {
        write: Some(Write::DeleteUser { id: copy_text(user.id.as_str()) }),
        message: done_text("Deleted", email),
    }
}

/// Deletes an account, or asks whether to.
pub fn delete(user: &UserRow, email: &str, skip_confirm: bool, active_admins: i64) -> (r: Result<
    DeleteStep,
    String,
>)
    ensures
        ({
            let g = guarded(
                user.role@,
                user.is_disabled != 0,
                user.email@,
                active_admins as int,
                "delete"@,
            );
            match r {
                Ok(DeleteStep::Ask(p)) => g is None && !skip_confirm && p@ == delete_prompt(
                    email@,
                    user.snippet_count,
                ),
                Ok(DeleteStep::Go(s)) => g is None && skip_confirm && s@ == deletion(*user, email@),
                Err(m) => g == Some(m@),
            }
        }),
{
    if let Err(m) = guard_last_admin(user, active_admins, "delete") {
        return Err(m);
    }
    if !skip_confirm {
        return Ok(DeleteStep::Ask(delete_prompt_text(email, user.snippet_count)));
    }
    Ok(DeleteStep::Go(deletion_of(user, email)))
}

/// What comes of an answer to whether an account is to be deleted: it is where the
/// answer is `yes`.
pub open spec fn answered(u: UserRow, email: Seq<char>, line: Seq<char>) -> StepView {
    if trimmed(line) == "yes"@ {
        deletion(u, email)
    } else {
        StepView { write: None, message: "Cancelled."@ }
    }
}

/// Takes the answer to whether an account is to be deleted.
pub fn confirm_delete(user: &UserRow, email: &str, line: &str) -> (r: Step)
    ensures
        r@ == answered(*user, email@, line@),
{
    let t = trim(line);
    if same_text(t.as_str(), "yes") {
        deletion_of(user, email)
    } else {
        Step { write: None, message: "Cancelled.".to_owned() }
    }
}

/// Whether a deletion found its account.
pub fn check_deleted(rows_affected: u64) -> (r: Result<(), String>)
    ensures
        match r {
            Ok(()) => rows_affected != 0,
            Err(m) => rows_affected == 0 && m@ == "delete affected 0 rows - did someone else delete them first?"@,
        },
{
    if rows_affected == 0 {
        return Err("delete affected 0 rows - did someone else delete them first?".to_owned());
    }
    Ok(())
}

/// A line without its end.
pub open spec fn line_text(line: Seq<char>) -> Seq<char> {
    strip_back(line, |c: char| c == '\r' || c == '\n')
}

fn line_text_of(line: &str) -> (r: String)
    ensures
        r@ == line_text(line@),
{
    let v: Vec<char> = chars_of(line);
    let mut n: usize = v.len();
    let ghost p = |c: char| c == '\r' || c == '\n';
    assert(v@.take(n as int) =~= line@);
    while n > 0 && (v[n - 1] == '\r' || v[n - 1] == '\n')
        invariant
            n <= v@.len(),
            p == (|c: char| c == '\r' || c == '\n'),
            strip_back(v@.take(n as int), p) == strip_back(line@, p),
        decreases n,
    {
        proof {
            assert(v@.take(n as int).drop_last() =~= v@.take(n - 1));
        }
        n = n - 1;
    }
    let r = text_between(&v, 0, n);
    proof {
        let t = v@.take(n as int);
        assert(v@.subrange(0, n as int) =~= t);
        if n > 0 {
            assert(t.last() == v@[n - 1]);
        }
        assert(strip_back(t, p) == t);
    }
    r
}

/// The least length of a password in bytes.
pub const MIN_PASSWORD_BYTES: usize = 10;

/// The password that was typed: once, or twice alike. What is wrong with it where it
/// was not typed alike, or is too short.
pub open spec fn typed_password(first: Seq<char>, second: Option<Seq<char>>) -> Result<
    Seq<char>,
    Seq<char>,
> {
    let pw = line_text(first);
    if second is Some && line_text(second->0) != pw {
        Err("passwords don't match - aborting."@)
    } else if byte_count(pw) < MIN_PASSWORD_BYTES {
        Err("password must be at least 10 characters."@)
    } else {
        Ok(pw)
    }
}

/// The password that was typed: once, or twice alike.
pub fn chosen_password(first: &str, second: Option<&str>) -> (r: Result<String, String>)
    ensures
        match r {
            Ok(p) => typed_password(first@, opt_str_view(second)) == Ok::<
                Seq<char>,
                Seq<char>,
            >(p@),
            Err(m) => typed_password(first@, opt_str_view(second)) == Err::<
                Seq<char>,
                Seq<char>,
            >(m@),
        },
{
    let pw = line_text_of(first);
    if let Some(s) = second {
        let again = line_text_of(s);
        if !same_text(again.as_str(), pw.as_str()) {
            return Err("passwords don't match - aborting.".to_owned());
        }
    }
    if !at_least_bytes(pw.as_str(), MIN_PASSWORD_BYTES) {
        return Err("password must be at least 10 characters.".to_owned());
    }
    Ok(pw)
}

/// That a password was set.
pub open spec fn reset_message(email: Seq<char>) -> Seq<char> {
    "Reset password for "@
        + email
        + ". Their existing JWT(s) remain valid until expiry (24h) - rotate the server's \
            jwt_secret if you need immediate invalidation."@
}

/// That a password was set.
fn reset_message_text(email: &str) -> (r: String)
    ensures
        r@ == reset_message(email@),
{
    let mut out: String = "Reset password for ".to_owned();
    out.push_str(email);
    out.push_str(". Their existing JWT(s) remain valid until expiry (24h) - rotate the server's \
                jwt_secret if you need immediate invalidation.");
    out
}

/// Sets the password that was typed, unless it is too long to be hashed. The hash is one
/// that the password is accepted for.
pub fn reset_password(user: &UserRow, email: &str, first: &str, second: Option<&str>) -> (r: Result<
    Step,
    String,
>)
    ensures
        match typed_password(first@, opt_str_view(second)) {
            Err(m) => r matches Err(e) && e@ == m,
            Ok(pw) => match r {
                Ok(s) => {
                    &&& byte_count(pw) <= MAX_PASSWORD_BYTES
                    &&& s.write matches Some(Write::SetPassword { id, hash })
                    &&& id@ == user.id@
                    &&& password_accepted(pw, Some(hash@))
                    &&& s.message@ == reset_message(email@)
                },
                Err(e) => byte_count(pw) > MAX_PASSWORD_BYTES && "argon2 hash failed: "@.is_prefix_of(
                    e@,
                ),
            },
        },
{
    let pw = match chosen_password(first, second) {
        Ok(p) => p,
        Err(m) => {
            return Err(m);
        },
    };
    match argon2_hash(pw.as_str()) {
        Ok(hash) => {
            let write = Write::SetPassword { id: copy_text(user.id.as_str()), hash };
            Ok(Step { write: Some(write), message: reset_message_text(email) })
        },
        Err(e) => {
            let t = password_error_text(&e);
            let mut m: String = "argon2 hash failed: ".to_owned();
            let ghost start = m@;
            m.push_str(t.as_str());
            assert(start.is_prefix_of(m@));
            Err(m)
        },
    }
}

/// A run of spaces.
pub open spec fn spaces(n: nat) -> Seq<char> {
    Seq::new(n, |i: int| ' ')
}

/// A text with spaces behind it, up to a width in characters.
pub open spec fn padded(s: Seq<char>, width: nat) -> Seq<char> {
    if s.len() >= width {
        s
    } else {
        s + spaces((width - s.len()) as nat)
    }
}

/// A text with spaces before it, up to a width in characters.
pub open spec fn padded_left(s: Seq<char>, width: nat) -> Seq<char> {
    if s.len() >= width {
        s
    } else {
        spaces((width - s.len()) as nat) + s
    }
}

fn spaces_text(n: usize) -> (r: String)
    ensures
        r@ == spaces(n as nat),
{
    let mut out: String = String::new();
    for i in 0..n
        invariant
            out@ =~= spaces(i as nat),
    {
        out.push(' ');
    }
    out
}

fn pad(s: &str, width: usize) -> (r: String)
    ensures
        r@ == padded(s@, width as nat),
{
    let n: usize = s.unicode_len();
    let mut out: String = copy_text(s);
    if n < width {
        let fill = spaces_text(width - n);
        out.push_str(fill.as_str());
    }
    out
}

fn pad_left(s: &str, width: usize) -> (r: String)
    ensures
        r@ == padded_left(s@, width as nat),
{
    let n: usize = s.unicode_len();
    if n < width {
        let mut out = spaces_text(width - n);
        out.push_str(s);
        out
    } else {
        copy_text(s)
    }
}

/// When an account was last seen.
pub open spec fn seen(ts: Option<i64>) -> Seq<char> {
    match ts {
        None => "never"@,
        Some(t) => match minute_stamp(t) {
            Some(s) => s,
            None => "?"@,
        },
    }
}

/// When an account was last seen.
pub fn seen_text(ts: Option<i64>) -> (r: String)
    ensures
        r@ == seen(ts),
{
    match ts {
        None => "never".to_owned(),
        Some(t) => match format_minute(t) {
            Some(s) => s,
            None => "?".to_owned(),
        },
    }
}

/// The larger of two widths.
pub open spec fn wider(a: nat, b: nat) -> nat {
    if a >= b {
        a
    } else {
        b
    }
}

/// The width of the column of emails, in bytes.
pub open spec fn email_width(l: Seq<UserRow>) -> nat
    decreases l.len(),
{
    if l.len() == 0 {
        5
    } else {
        wider(email_width(l.drop_last()), encode_utf8(l.last().email@).len())
    }
}

/// The width of the column of names, in bytes.
pub open spec fn name_width(l: Seq<UserRow>) -> nat
    decreases l.len(),
{
    if l.len() == 0 {
        4
    } else {
        wider(name_width(l.drop_last()), encode_utf8(l.last().display_name@).len())
    }
}

/// A line of the list.
pub open spec fn list_line(
    email: Seq<char>,
    name: Seq<char>,
    role: Seq<char>,
    status: Seq<char>,
    snippets: Seq<char>,
    last: Seq<char>,
    email_w: nat,
    name_w: nat,
) -> Seq<char> {
    padded(email, email_w) + "  "@ + padded(name, name_w) + "  "@ + padded(role, 6) + "  "@ + padded(
        status,
        8,
    ) + "  "@ + padded_left(snippets, 8) + "  "@ + last
}

fn list_line_text(
    email: &str,
    name: &str,
    role: &str,
    status: &str,
    snippets: &str,
    last: &str,
    email_w: usize,
    name_w: usize,
) -> (r: String)
    ensures
        r@ == list_line(
            email@,
            name@,
            role@,
            status@,
            snippets@,
            last@,
            email_w as nat,
            name_w as nat,
        ),
{
    let mut out = pad(email, email_w);
    let p2 = pad(name, name_w);
    let p3 = pad(role, 6);
    let p4 = pad(status, 8);
    let p5 = pad_left(snippets, 8);
    out.push_str("  ");
    out.push_str(p2.as_str());
    out.push_str("  ");
    out.push_str(p3.as_str());
    out.push_str("  ");
    out.push_str(p4.as_str());
    out.push_str("  ");
    out.push_str(p5.as_str());
    out.push_str("  ");
    out.push_str(last);
    out
}

/// An account as a line of the list.
pub open spec fn account_line(u: UserRow, email_w: nat, name_w: nat) -> Seq<char> {
    list_line(
        u.email@,
        u.display_name@,
        u.role@,
        status(u.is_disabled != 0),
        decimal_int(u.snippet_count as int),
        seen(u.last_seen_at),
        email_w,
        name_w,
    )
}

/// Accounts as lines of the list.
pub open spec fn account_lines(l: Seq<UserRow>, email_w: nat, name_w: nat) -> Seq<Seq<char>> {
    Seq::new(l.len(), |i: int| account_line(l[i], email_w, name_w))
}

/// The head of the list.
pub open spec fn head_line(email_w: nat, name_w: nat) -> Seq<char> {
    list_line(
        "EMAIL"@,
        "NAME"@,
        "ROLE"@,
        "STATUS"@,
        "SNIPPETS"@,
        "LAST SEEN"@,
        email_w,
        name_w,
    )
}

/// The list of accounts, line by line.
pub open spec fn listed(l: Seq<UserRow>) -> Seq<Seq<char>> {
    if l.len() == 0 {
        seq!["(no users yet - the first signup auto-promotes to admin)"@]
    } else {
        seq![head_line(email_width(l), name_width(l))] + account_lines(
            l,
            email_width(l),
            name_width(l),
        )
    }
}

/// How many bytes a text takes.
fn bytes_of(s: &str) -> (r: usize)
    ensures
        r == encode_utf8(s@).len(),
{
    s.as_bytes().len()
}

fn widths(rows: &Vec<UserRow>) -> (r: (usize, usize))
    ensures
        r.0 == email_width(rows@),
        r.1 == name_width(rows@),
{
    let n: usize = rows.len();
    let mut email_w: usize = 5;
    let mut name_w: usize = 4;
    for i in 0..n
        invariant
            n == rows@.len(),
            email_w == email_width(rows@.take(i as int)),
            name_w == name_width(rows@.take(i as int)),
    {
        proof {
            let t = rows@.take(i + 1);
            assert(t.drop_last() =~= rows@.take(i as int));
            assert(t.last() == rows@[i as int]);
        }
        let e: usize = bytes_of(rows[i].email.as_str());
        let d: usize = bytes_of(rows[i].display_name.as_str());
        if e > email_w {
            email_w = e;
        }
        if d > name_w {
            name_w = d;
        }
    }
    assert(rows@.take(n as int) =~= rows@);
    (email_w, name_w)
}

/// The list of accounts, line by line.
pub fn list(rows: &Vec<UserRow>) -> (r: Vec<String>)
    ensures
        views(r@) == listed(rows@),
{
    let mut out: Vec<String> = Vec::new();
    assert(views(out@) =~= Seq::<Seq<char>>::empty());
    let n: usize = rows.len();
    if n == 0 {
        push_text(
            &mut out,
            "(no users yet - the first signup auto-promotes to admin)".to_owned(),
        );
        assert(views(out@) =~= listed(rows@));
        return out;
    }
    let (email_w, name_w) = widths(rows);
    let head = list_line_text(
        "EMAIL",
        "NAME",
        "ROLE",
        "STATUS",
        "SNIPPETS",
        "LAST SEEN",
        email_w,
        name_w,
    );
    push_text(&mut out, head);
    let ghost first = seq![head_line(email_w as nat, name_w as nat)];
    let ghost all = account_lines(rows@, email_w as nat, name_w as nat);
    assert(views(out@) =~= first + all.take(0));
    for i in 0..n
        invariant
            n == rows@.len(),
            all == account_lines(rows@, email_w as nat, name_w as nat),
            views(out@) == first + all.take(i as int),
    {
        let u = &rows[i];
        let count = i64_text(u.snippet_count);
        let last = seen_text(u.last_seen_at);
        let line = list_line_text(
            u.email.as_str(),
            u.display_name.as_str(),
            u.role.as_str(),
            status_of(u.is_disabled != 0),
            count.as_str(),
            last.as_str(),
            email_w,
            name_w,
        );
        push_text(&mut out, line);
        assert(all.take(i + 1) =~= all.take(i as int).push(all[i as int]));
        assert(views(out@) =~= first + all.take(i + 1));
    }
    assert(all.take(n as int) =~= all);
    out
}

/// A snippet of an account, as stored.
#[derive(Debug)]
pub struct IdRow {
    pub id: String,
    pub version: i64,
    pub is_deleted: i64,
}

/// How many snippets an account has, counted apart from each other.
#[derive(Debug, Clone, Copy)]
pub struct RawCounts {
    pub live: i64,
    pub tombstoned: i64,
    pub total: i64,
    /// Those whose owner only looks like the account.
    pub fuzzy: i64,
}

/// A stored snippet as a line.
pub open spec fn id_line(r: IdRow) -> Seq<char> {
    "    v"@ + padded_left(decimal_int(r.version as int), 3) + "  "@ + r.id@ + (if r.is_deleted != 0 {
        " [tombstone]"@
    } else {
        ""@
    })
}

fn id_line_text(r: &IdRow) -> (s: String)
    ensures
        s@ == id_line(*r),
{
    let n = i64_text(r.version);
    let v = pad_left(n.as_str(), 3);
    let mut out: String = "    v".to_owned();
    out.push_str(v.as_str());
    out.push_str("  ");
    out.push_str(r.id.as_str());
    if r.is_deleted != 0 {
        out.push_str(" [tombstone]");
    } else {
        out.push_str("");
    }
    out
}

/// Stored snippets, line by line; nothing where there are none.
pub open spec fn id_lines(l: Seq<IdRow>) -> Seq<Seq<char>> {
    if l.len() == 0 {
        Seq::empty()
    } else {
        seq!["  first ten ids (oldest first):"@] + Seq::new(l.len(), |i: int| id_line(l[i]))
    }
}

/// A label with its value.
pub open spec fn labelled(label: Seq<char>, value: Seq<char>) -> Seq<char> {
    label + value
}

fn push_labelled(l: &mut Vec<String>, label: &str, value: &str)
    ensures
        views(final(l)@) == views(old(l)@).push(labelled(label@, value@)),
{
    let mut s: String = copy_text(label);
    s.push_str(value);
    push_text(l, s);
}

/// What is known of an account, line by line.
pub open spec fn account_block(u: UserRow) -> Seq<Seq<char>> {
    seq![
        "user"@,
        labelled("  id:           "@, u.id@),
        labelled("  email:        "@, u.email@),
        labelled("  display_name: "@, u.display_name@),
        labelled("  role:         "@, u.role@),
        labelled(
            "  is_disabled:  "@,
            if u.is_disabled != 0 {
                "yes"@
            } else {
                "no"@
            },
        ),
        labelled("  last_seen_at: "@, seen(u.last_seen_at)),
    ]
}

/// How many snippets there are, line by line.
pub open spec fn count_block(c: RawCounts) -> Seq<Seq<char>> {
    seq![
        ""@,
        "personal_snippets (raw)"@,
        labelled("  live:       "@, decimal_int(c.live as int)),
        labelled("  tombstoned: "@, decimal_int(c.tombstoned as int)),
        labelled("  total:      "@, decimal_int(c.total as int)),
    ]
}

/// That owners do not match.
pub open spec fn fuzzy_line(n: i64) -> Seq<char> {
    "WARNING: "@
        + decimal_int(n as int)
        + " snippet(s) have an owner_id that *contains* but doesn't *equal* this user's id. \
            JOIN-mismatch bug; investigate."@
}

/// That owners do not match.
fn fuzzy_line_text(n: i64) -> (r: String)
    ensures
        r@ == fuzzy_line(n),
{
    let n_n = i64_text(n);
    let mut out: String = "WARNING: ".to_owned();
    out.push_str(n_n.as_str());
    out.push_str(" snippet(s) have an owner_id that *contains* but doesn't *equal* this user's id. \
                JOIN-mismatch bug; investigate.");
    out
}

/// The warning where owners do not match; nothing where they do.
pub open spec fn fuzzy_block(n: i64) -> Seq<Seq<char>> {
    if n > 0 {
        seq![""@, fuzzy_line(n)]
    } else {
        Seq::empty()
    }
}

/// All that is known of one account, line by line.
pub open spec fn info_lines(u: UserRow, c: RawCounts, ids: Seq<IdRow>) -> Seq<Seq<char>> {
    account_block(u) + count_block(c) + id_lines(ids) + fuzzy_block(c.fuzzy)
}

/// All that is known of one account, line by line.
pub fn info(user: &UserRow, counts: RawCounts, ids: &Vec<IdRow>) -> (r: Vec<String>)
    ensures
        views(r@) == info_lines(*user, counts, ids@),
{
    let mut out: Vec<String> = Vec::new();
    assert(views(out@) =~= Seq::<Seq<char>>::empty());
    let disabled = if user.is_disabled != 0 {
        "yes"
    } else {
        "no"
    };
    let last = seen_text(user.last_seen_at);
    push_text(&mut out, "user".to_owned());
    push_labelled(&mut out, "  id:           ", user.id.as_str());
    push_labelled(&mut out, "  email:        ", user.email.as_str());
    push_labelled(&mut out, "  display_name: ", user.display_name.as_str());
    push_labelled(&mut out, "  role:         ", user.role.as_str());
    push_labelled(&mut out, "  is_disabled:  ", disabled);
    push_labelled(&mut out, "  last_seen_at: ", last.as_str());
    assert(views(out@) =~= account_block(*user));
    let live = i64_text(counts.live);
    let tombstoned = i64_text(counts.tombstoned);
    let total = i64_text(counts.total);
    push_text(&mut out, "".to_owned());
    push_text(&mut out, "personal_snippets (raw)".to_owned());
    push_labelled(&mut out, "  live:       ", live.as_str());
    push_labelled(&mut out, "  tombstoned: ", tombstoned.as_str());
    push_labelled(&mut out, "  total:      ", total.as_str());
    let ghost head = account_block(*user) + count_block(counts);
    assert(views(out@) =~= head);
    let n: usize = ids.len();
    if n > 0 {
        push_text(&mut out, "  first ten ids (oldest first):".to_owned());
        let ghost first = head.push("  first ten ids (oldest first):"@);
        let ghost all = Seq::new(ids@.len(), |i: int| id_line(ids@[i]));
        assert(views(out@) =~= first + all.take(0));
        for i in 0..n
            invariant
                n == ids@.len(),
                all == Seq::new(ids@.len(), |i: int| id_line(ids@[i])),
                views(out@) == first + all.take(i as int),
        {
            push_text(&mut out, id_line_text(&ids[i]));
            assert(views(out@) =~= first + all.take(i + 1));
        }
        assert(views(out@) =~= head + id_lines(ids@));
    } else {
        assert(views(out@) =~= head + id_lines(ids@));
    }
    if counts.fuzzy > 0 {
        push_text(&mut out, "".to_owned());
        push_text(&mut out, fuzzy_line_text(counts.fuzzy));
    }
    assert(views(out@) =~= info_lines(*user, counts, ids@));
    out
}

/// What comes of a command that changes the role or the status of an account; none
/// for any other command.
pub open spec fn changed(cmd: UsersCmd, u: UserRow, active_admins: int) -> Option<
    Result<StepView, Seq<char>>,
> {
    match cmd {
        UsersCmd::Promote { email } => Some(role_step(u, email@, "admin"@, active_admins)),
        UsersCmd::Demote { email } => Some(role_step(u, email@, "member"@, active_admins)),
        UsersCmd::Disable { email } => Some(disabled_step(u, email@, true, active_admins)),
        UsersCmd::Enable { email } => Some(disabled_step(u, email@, false, active_admins)),
        _ => None,
    }
}

/// Carries out a command that changes the role or the status of an account; none for
/// any other command.
pub fn change(cmd: &UsersCmd, user: &UserRow, active_admins: i64) -> (r: Option<
    Result<Step, String>,
>)
    ensures
        match r {
            Some(o) => changed(*cmd, *user, active_admins as int) == Some(outcome_view(o)),
            None => changed(*cmd, *user, active_admins as int) is None,
        },
{
    match cmd {
        UsersCmd::Promote { email } => Some(
            set_role(user, email.as_str(), "admin", active_admins),
        ),
        UsersCmd::Demote { email } => Some(
            set_role(user, email.as_str(), "member", active_admins),
        ),
        UsersCmd::Disable { email } => Some(
            set_disabled(user, email.as_str(), true, active_admins),
        ),
        UsersCmd::Enable { email } => Some(
            set_disabled(user, email.as_str(), false, active_admins),
        ),
        _ => None,
    }
}

/// How many accounts can administrate.
pub open spec fn admins(l: Seq<UserRow>) -> nat
    decreases l.len(),
{
    if l.len() == 0 {
        0
    } else {
        admins(l.drop_last()) + (if administrates(l.last().role@, l.last().is_disabled != 0) {
            1nat
        } else {
            0nat
        })
    }
}

/// Whether an account can administrate once a change is made; false where the change
/// deletes it.
pub open spec fn administrates_after(u: UserRow, w: WriteView) -> bool {
    match w {
        WriteView::SetRole { id, role } => administrates(
            if u.id@ == id {
                role
            } else {
                u.role@
            },
            u.is_disabled != 0,
        ),
        WriteView::SetDisabled { id, disabled } => administrates(
            u.role@,
            if u.id@ == id {
                disabled
            } else {
                u.is_disabled != 0
            },
        ),
        WriteView::DeleteUser { id } => u.id@ != id && administrates(u.role@, u.is_disabled != 0),
        WriteView::SetPassword { id, hash } => administrates(u.role@, u.is_disabled != 0),
    }
}

/// How many accounts can administrate once a change is made.
pub open spec fn admins_after(l: Seq<UserRow>, w: WriteView) -> nat
    decreases l.len(),
{
    if l.len() == 0 {
        0
    } else {
        admins_after(l.drop_last(), w) + (if administrates_after(l.last(), w) {
            1nat
        } else {
            0nat
        })
    }
}

/// The account that a change is made to.
pub open spec fn target_of(w: WriteView) -> Seq<char> {
    match w {
        WriteView::SetRole { id, .. } => id,
        WriteView::SetDisabled { id, .. } => id,
        WriteView::DeleteUser { id } => id,
        WriteView::SetPassword { id, .. } => id,
    }
}

proof fn lemma_others_stay(l: Seq<UserRow>, w: WriteView)
    requires
        forall|i: int| 0 <= i < l.len() ==> (#[trigger] l[i]).id@ != target_of(w),
    ensures
        admins_after(l, w) == admins(l),
    decreases l.len(),
{
    if l.len() > 0 {
        assert(l.last() == l[l.len() - 1]);
        assert forall|i: int| 0 <= i < l.drop_last().len() implies (#[trigger] l.drop_last()[i]).id@
            != target_of(w) by {
            assert(l.drop_last()[i] == l[i]);
        }
        lemma_others_stay(l.drop_last(), w);
    }
}

proof fn lemma_one_changes(l: Seq<UserRow>, w: WriteView, k: int)
    requires
        0 <= k < l.len(),
        l[k].id@ == target_of(w),
        forall|i: int| 0 <= i < l.len() && i != k ==> (#[trigger] l[i]).id@ != target_of(w),
    ensures
        admins_after(l, w) - admins(l) == (if administrates_after(l[k], w) {
            1int
        } else {
            0int
        }) - (if administrates(l[k].role@, l[k].is_disabled != 0) {
            1int
        } else {
            0int
        }),
    decreases l.len(),
{
    let t = l.drop_last();
    assert forall|i: int| 0 <= i < t.len() && i != k implies (#[trigger] t[i]).id@ != target_of(w) by {
        assert(t[i] == l[i]);
    }
    if k == l.len() - 1 {
        lemma_others_stay(t, w);
    } else {
        assert(t[k] == l[k]);
        assert(l.last() == l[l.len() - 1]);
        lemma_one_changes(t, w, k);
    }
}

/// While one account can administrate, no command takes the last such account away:
/// neither a new role or status, nor a deletion, asked for or confirmed.
pub proof fn law_an_admin_remains(l: Seq<UserRow>, k: int, cmd: UsersCmd, w: WriteView)
    requires
        0 <= k < l.len(),
        forall|i: int, j: int| 0 <= i < j < l.len() ==> (#[trigger] l[i]).id@ != (#[trigger] l[j]).id@,
        admins(l) >= 1,
        ({
            ||| changed(cmd, l[k], admins(l) as int) matches Some(Ok(s)) && s.write == Some(w)
            ||| {
                &&& guarded(
                    l[k].role@,
                    l[k].is_disabled != 0,
                    l[k].email@,
                    admins(l) as int,
                    "delete"@,
                ) is None
                &&& w == (WriteView::DeleteUser { id: l[k].id@ })
            }
        }),
    ensures
        admins_after(l, w) >= 1,
{
    assert(target_of(w) == l[k].id@);
    assert forall|i: int| 0 <= i < l.len() && i != k implies (#[trigger] l[i]).id@ != target_of(w) by {
        if i < k {
            assert(l[i].id@ != l[k].id@);
        } else {
            assert(l[k].id@ != l[i].id@);
        }
    }
    lemma_one_changes(l, w, k);
}

/// A command changes what its name says of the account that it names, and nothing where that
/// is so already; and no command takes the last active admin away.
pub proof fn law_commands_do_what_they_say(u: UserRow, email: String, active_admins: int)
    ensures
        ({
            let c = changed(UsersCmd::Promote { email }, u, active_admins);
            &&& u.role@ == "admin"@ ==> (c matches Some(Ok(s)) && s.write is None)
            &&& u.role@ != "admin"@ ==> (c matches Some(Ok(s)) && s.write == Some(
                WriteView::SetRole { id: u.id@, role: "admin"@ },
            ))
        }),
        ({
            let c = changed(UsersCmd::Demote { email }, u, active_admins);
            let last = u.role@ == "admin"@ && u.is_disabled == 0 && active_admins <= 1;
            &&& u.role@ == "member"@ ==> (c matches Some(Ok(s)) && s.write is None)
            &&& u.role@ != "member"@ && last ==> (c matches Some(Err(_)))
            &&& u.role@ != "member"@ && !last ==> (c matches Some(Ok(s)) && s.write == Some(
                WriteView::SetRole { id: u.id@, role: "member"@ },
            ))
        }),
        ({
            let c = changed(UsersCmd::Disable { email }, u, active_admins);
            let last = u.role@ == "admin"@ && active_admins <= 1;
            &&& u.is_disabled != 0 ==> (c matches Some(Ok(s)) && s.write is None)
            &&& u.is_disabled == 0 && last ==> (c matches Some(Err(_)))
            &&& u.is_disabled == 0 && !last ==> (c matches Some(Ok(s)) && s.write == Some(
                WriteView::SetDisabled { id: u.id@, disabled: true },
            ))
        }),
        ({
            let c = changed(UsersCmd::Enable { email }, u, active_admins);
            &&& u.is_disabled == 0 ==> (c matches Some(Ok(s)) && s.write is None)
            &&& u.is_disabled != 0 ==> (c matches Some(Ok(s)) && s.write == Some(
                WriteView::SetDisabled { id: u.id@, disabled: false },
            ))
        }),
{
    reveal_strlit("admin");
    reveal_strlit("member");
    assert("admin"@.len() != "member"@.len());
}

/// A password counts as it was typed, without the end of the line: it is taken where it has at
/// least ten bytes and was typed alike both times.
pub proof fn law_passwords_are_taken_as_typed(
    a: Seq<char>,
    end_a: Seq<char>,
    b: Seq<char>,
    end_b: Seq<char>,
)
    requires
        forall|i: int| 0 <= i < end_a.len() ==> #[trigger] end_a[i] == '\r' || end_a[i] == '\n',
        forall|i: int| 0 <= i < end_b.len() ==> #[trigger] end_b[i] == '\r' || end_b[i] == '\n',
        a.len() > 0 ==> a.last() != '\r' && a.last() != '\n',
        b.len() > 0 ==> b.last() != '\r' && b.last() != '\n',
    ensures
        typed_password(a + end_a, Some(b + end_b)) is Ok <==> a == b && byte_count(a) >= 10,
        typed_password(a + end_a, None) is Ok <==> byte_count(a) >= 10,
        typed_password(a + end_a, Some(b + end_b)) matches Ok(p) ==> p == a,
        typed_password(a + end_a, None) matches Ok(p) ==> p == a,
{
    lemma_line_end(a, end_a);
    lemma_line_end(b, end_b);
}

proof fn lemma_line_end(a: Seq<char>, end: Seq<char>)
    requires
        forall|i: int| 0 <= i < end.len() ==> #[trigger] end[i] == '\r' || end[i] == '\n',
        a.len() > 0 ==> a.last() != '\r' && a.last() != '\n',
    ensures
        line_text(a + end) == a,
{
    let s = a + end;
    let p = |c: char| c == '\r' || c == '\n';
    assert forall|i: int| a.len() <= i < s.len() implies p(#[trigger] s[i]) by {
        assert(s[i] == end[i - a.len()]);
    }
    if a.len() > 0 {
        assert(s[a.len() - 1] == a.last());
    }
    lemma_strip_back_unique(s, p, a.len() as int);
    assert(s.take(a.len() as int) =~= a);
}

/// The list names every account, one on each line, in order: the line begins with the e-mail
/// address and ends with the time of the last visit, and under each head stand the values of
/// the lines.
pub proof fn law_accounts_are_listed(l: Seq<UserRow>, i: int)
    requires
        0 <= i < l.len(),
    ensures
        listed(l).len() == l.len() + 1,
        ({
            let head = listed(l)[0];
            let line = listed(l)[i + 1];
            let u = l[i];
            &&& u.email@.is_prefix_of(line)
            &&& "EMAIL"@.is_prefix_of(head)
            &&& exists|c: int| #[trigger]
                stands_at(head, "NAME"@, c) && stands_at(line, u.display_name@, c)
            &&& exists|c: int| #[trigger] stands_at(head, "ROLE"@, c) && stands_at(line, u.role@, c)
            &&& occurs(line, decimal_int(u.snippet_count as int))
            &&& u.is_disabled != 0 ==> occurs(line, "disabled"@)
            &&& u.is_disabled == 0 ==> occurs(line, "active"@)
            &&& u.last_seen_at is None ==> occurs(line, "never"@)
        }),
{
    let ew = email_width(l);
    let nw = name_width(l);
    let u = l[i];
    lemma_widths(l, i);
    reveal_strlit("EMAIL");
    reveal_strlit("NAME");
    lemma_columns(
        "EMAIL"@,
        "NAME"@,
        "ROLE"@,
        "STATUS"@,
        "SNIPPETS"@,
        "LAST SEEN"@,
        ew,
        nw,
    );
    lemma_columns(
        u.email@,
        u.display_name@,
        u.role@,
        status(u.is_disabled != 0),
        decimal_int(u.snippet_count as int),
        seen(u.last_seen_at),
        ew,
        nw,
    );
    reveal_strlit("  ");
    assert(stands_at(listed(l)[0], "NAME"@, ew as int + 2));
    assert(stands_at(listed(l)[0], "ROLE"@, ew as int + 2 + nw + 2));
}

proof fn lemma_widths(l: Seq<UserRow>, i: int)
    requires
        0 <= i < l.len(),
    ensures
        email_width(l) >= 5,
        name_width(l) >= 4,
        email_width(l) >= l[i].email@.len(),
        name_width(l) >= l[i].display_name@.len(),
    decreases l.len(),
{
    let p = l.drop_last();
    lemma_least_widths(p);
    if i < p.len() {
        assert(p[i] == l[i]);
        lemma_widths(p, i);
    } else {
        lemma_bytes_cover(l[i].email@);
        lemma_bytes_cover(l[i].display_name@);
    }
}

/// A text has no more characters than bytes.
proof fn lemma_bytes_cover(s: Seq<char>)
    ensures
        encode_utf8(s).len() >= s.len(),
    decreases s.len(),
{
    if s.len() > 0 {
        lemma_bytes_cover(s.drop_first());
    }
}

proof fn lemma_least_widths(l: Seq<UserRow>)
    ensures
        email_width(l) >= 5,
        name_width(l) >= 4,
    decreases l.len(),
{
    if l.len() > 0 {
        lemma_least_widths(l.drop_last());
    }
}

/// A part of a line stands where what is before it ends.
proof fn lemma_stands_behind(a: Seq<char>, x: Seq<char>, b: Seq<char>)
    ensures
        stands_at(a + x + b, x, a.len() as int),
{
    let w = a + x + b;
    assert(w.subrange(a.len() as int, a.len() as int + x.len()) =~= x);
}

/// What stands in a part of a line stands in the line.
proof fn lemma_stands_in_part(a: Seq<char>, b: Seq<char>, x: Seq<char>, i: int)
    ensures
        stands_at(a, x, i) ==> stands_at(a + b, x, i),
        stands_at(b, x, i) ==> stands_at(a + b, x, a.len() + i),
{
    let w = a + b;
    if stands_at(a, x, i) {
        assert(w.subrange(i, i + x.len()) =~= a.subrange(i, i + x.len()));
    }
    if stands_at(b, x, i) {
        let j = a.len() + i;
        assert(w.subrange(j, j + x.len()) =~= b.subrange(i, i + x.len()));
    }
}

/// A text stands in what it is filled up to.
proof fn lemma_stands_padded(s: Seq<char>, width: nat)
    ensures
        stands_at(padded(s, width), s, 0),
        s.len() <= width ==> padded(s, width).len() == width,
        occurs(padded_left(s, width), s),
{
    let p = padded(s, width);
    assert(p.subrange(0, s.len() as int) =~= s);
    let q = padded_left(s, width);
    let k = q.len() - s.len();
    assert(q.subrange(k, k + s.len()) =~= s);
    assert(stands_at(q, s, k));
}

proof fn lemma_columns(
    email: Seq<char>,
    name: Seq<char>,
    role: Seq<char>,
    state: Seq<char>,
    snippets: Seq<char>,
    last: Seq<char>,
    ew: nat,
    nw: nat,
)
    requires
        email.len() <= ew,
        name.len() <= nw,
    ensures
        ({
            let line = list_line(email, name, role, state, snippets, last, ew, nw);
            &&& email.is_prefix_of(line)
            &&& stands_at(line, name, ew as int + 2)
            &&& stands_at(line, role, ew as int + 2 + nw + 2)
            &&& occurs(line, state)
            &&& occurs(line, snippets)
            &&& occurs(line, last)
        }),
{
    reveal_strlit("  ");
    let gap = "  "@;
    assert(gap.len() == 2);
    let n = padded(name, nw);
    let r = padded(role, 6);
    let t = padded(state, 8);
    let c = padded_left(snippets, 8);
    let l1 = padded(email, ew) + gap;
    let l2 = l1 + n;
    let l3 = l2 + gap;
    let l4 = l3 + r;
    let l5 = l4 + gap;
    let l6 = l5 + t;
    let l7 = l6 + gap;
    let l8 = l7 + c;
    let l9 = l8 + gap;
    let line = l9 + last;
    assert(line == list_line(email, name, role, state, snippets, last, ew, nw));
    lemma_stands_padded(email, ew);
    lemma_stands_padded(name, nw);
    lemma_stands_padded(role, 6);
    lemma_stands_padded(state, 8);
    lemma_stands_padded(snippets, 8);
    lemma_stands_in_part(padded(email, ew), gap, email, 0);
    lemma_stands_in_part(l1, n, email, 0);
    lemma_stands_in_part(l1, n, name, 0);
    let at_name = l1.len() as int;
    let at_role = l3.len() as int;
    let at_state = l5.len() as int;
    let k = choose|k: int| stands_at(c, snippets, k);
    lemma_kept(l2, gap, r, gap, t, gap, c, email, 0);
    lemma_kept(l2, gap, r, gap, t, gap, c, name, at_name);
    lemma_stands_in_part(l3, r, role, 0);
    lemma_kept(l4, gap, t, gap, c, gap, last, role, at_role);
    lemma_stands_in_part(l5, t, state, 0);
    lemma_stands_in_part(l6, gap, state, at_state);
    lemma_stands_in_part(l7, c, state, at_state);
    lemma_stands_in_part(l7, c, snippets, k);
    lemma_stands_in_part(l8, gap, email, 0);
    lemma_stands_in_part(l8, gap, name, at_name);
    lemma_stands_in_part(l8, gap, state, at_state);
    lemma_stands_in_part(l8, gap, snippets, l7.len() + k);
    lemma_stands_in_part(l9, last, email, 0);
    lemma_stands_in_part(l9, last, name, at_name);
    lemma_stands_in_part(l9, last, state, at_state);
    lemma_stands_in_part(l9, last, snippets, l7.len() + k);
    assert(last.subrange(0, last.len() as int) =~= last);
    lemma_stands_in_part(l9, last, last, 0);
    assert(stands_at(line, state, at_state));
    assert(stands_at(line, snippets, l7.len() + k));
    assert(stands_at(line, last, l9.len() as int));
    assert(line.subrange(0, email.len() as int) == email);
}

/// What stands in a line stands in it still when more is written behind.
proof fn lemma_kept(
    l: Seq<char>,
    a: Seq<char>,
    b: Seq<char>,
    c: Seq<char>,
    d: Seq<char>,
    e: Seq<char>,
    f: Seq<char>,
    x: Seq<char>,
    i: int,
)
    requires
        stands_at(l, x, i),
    ensures
        stands_at(l + a + b + c + d + e + f, x, i),
{
    lemma_stands_in_part(l, a, x, i);
    lemma_stands_in_part(l + a, b, x, i);
    lemma_stands_in_part(l + a + b, c, x, i);
    lemma_stands_in_part(l + a + b + c, d, x, i);
    lemma_stands_in_part(l + a + b + c + d, e, x, i);
    lemma_stands_in_part(l + a + b + c + d + e, f, x, i);
}

/// What is told of an account tells its id, address, name, role, state and figures, and every
/// id of its snippets.
pub proof fn law_accounts_are_told(u: UserRow, c: RawCounts, ids: Seq<IdRow>, i: int)
    requires
        0 <= i < ids.len(),
    ensures
        ({
            let lines = info_lines(u, c, ids);
            &&& lines.contains("  id:           "@ + u.id@)
            &&& lines.contains("  email:        "@ + u.email@)
            &&& lines.contains("  display_name: "@ + u.display_name@)
            &&& lines.contains("  role:         "@ + u.role@)
            &&& u.is_disabled != 0 ==> lines.contains("  is_disabled:  "@ + "yes"@)
            &&& u.is_disabled == 0 ==> lines.contains("  is_disabled:  "@ + "no"@)
            &&& lines.contains("  live:       "@ + decimal_int(c.live as int))
            &&& lines.contains("  tombstoned: "@ + decimal_int(c.tombstoned as int))
            &&& lines.contains("  total:      "@ + decimal_int(c.total as int))
            &&& occurs(lines[13 + i], ids[i].id@)
            &&& occurs(lines[13 + i], decimal_int(ids[i].version as int))
            &&& ids[i].is_deleted != 0 ==> occurs(lines[13 + i], " [tombstone]"@)
            &&& lines.len() == 13 + ids.len() + (if c.fuzzy > 0 {
                2int
            } else {
                0
            })
        }),
{
    let lines = info_lines(u, c, ids);
    let a = account_block(u);
    let b = count_block(c);
    assert(a.len() == 7 && b.len() == 5);
    assert(lines[1] == a[1]);
    assert(lines[2] == a[2]);
    assert(lines[3] == a[3]);
    assert(lines[4] == a[4]);
    assert(lines[5] == a[5]);
    assert(lines[9] == b[2]);
    assert(lines[10] == b[3]);
    assert(lines[11] == b[4]);
    let r = ids[i];
    assert(lines[13 + i] == id_line(r));
    let v = decimal_int(r.version as int);
    let fill = if v.len() >= 3 {
        Seq::empty()
    } else {
        spaces((3 - v.len()) as nat)
    };
    let end = if r.is_deleted != 0 {
        " [tombstone]"@
    } else {
        ""@
    };
    assert(padded_left(v, 3) =~= fill + v);
    assert(id_line(r) =~= "    v"@ + fill + v + ("  "@ + r.id@ + end));
    lemma_stands_behind("    v"@ + fill, v, "  "@ + r.id@ + end);
    assert(id_line(r) =~= "    v"@ + fill + v + "  "@ + r.id@ + end);
    lemma_stands_behind("    v"@ + fill + v + "  "@, r.id@, end);
    let none = Seq::<char>::empty();
    assert(id_line(r) =~= "    v"@ + fill + v + "  "@ + r.id@ + end + none);
    lemma_stands_behind("    v"@ + fill + v + "  "@ + r.id@, end, none);
}

/// An account is looked up by its address, whatever its case and the blanks around it, and a
/// deletion removes that account.
pub proof fn law_accounts_are_found_by_address(
    a: Seq<char>,
    s: Seq<char>,
    b: Seq<char>,
    u: UserRow,
)
    requires
        all_blank(a),
        all_blank(b),
        s.len() > 0,
        !white_space(s[0]),
        !white_space(s.last()),
    ensures
        lookup_key(a + s + b) == lowercase_text(s),
        deletion(u, s).write == Some(WriteView::DeleteUser { id: u.id@ }),
{
    law_outer_blanks_are_trimmed(a, s, b);
}

} // verus!
