//! The frame around every page.
use crate::html::{escape_html, render};
use crate::text::{char_to_uppercase, chars_of, string_of};
use vstd::prelude::*;

verus! {

use crate::html::{entries, escaped, rendered};
use crate::text::{opt_view, uppercase_char};

/// Which entry of the navigation a page belongs to.
#[derive(Copy, Clone, Debug, PartialEq, Eq, Structural)]
pub enum NavTab {
    Users,
    Library,
    Insights,
    Stats,
    Audit,
    Onboarding,
    /// A page that belongs to no entry.
    Nowhere,
}

/// What is known of newer releases.
#[derive(Debug)]
pub struct UpdateStatus {
    pub is_newer: bool,
    pub latest_version: Option<String>,
    pub html_url: Option<String>,
}

/// What the frame shows besides the page itself.
#[derive(Debug)]
pub struct Frame {
    pub brand_name: String,
    /// The running version.
    pub version: String,
    pub update: UpdateStatus,
    /// The signed-in user's name and role.
    pub user: String,
    pub role: String,
}

/// A text, or an empty one where there is none.
pub open spec fn or_empty(s: Option<Seq<char>>) -> Seq<char> {
    match s {
        Some(t) => t,
        None => Seq::empty(),
    }
}

/// A text, or an empty one where there is none.
pub fn text_or_empty(s: &Option<String>) -> (r: &str)
    ensures
        r@ == or_empty(opt_view(*s)),
{
    match s {
        Some(t) => t.as_str(),
        None => {
            proof {
                reveal_strlit("");
                assert(""@ =~= Seq::<char>::empty());
            }
            ""
        },
    }
}

/// The notice of a newer release.
pub open spec fn banner_html(
    brand: Seq<char>,
    version: Seq<char>,
    current: Seq<char>,
    url: Seq<char>,
) -> Seq<char> {
    "<div class=\"update-banner\"><span><strong>Update available:</strong> "@
        + escaped(brand)
        + " server "@
        + escaped(version)
        + " (running "@
        + escaped(current)
        + ")</span> <a href=\""@
        + escaped(url)
        + "\" target=\"_blank\" rel=\"noopener\">View release notes &rarr;</a></div>"@
}

/// The notice of a newer release.
fn banner_text(brand: &str, version: &str, current: &str, url: &str) -> (r: String)
    ensures
        r@ == banner_html(brand@, version@, current@, url@),
{
    let brand_e = escape_html(brand);
    let version_e = escape_html(version);
    let current_e = escape_html(current);
    let url_e = escape_html(url);
    let mut out: String = "<div class=\"update-banner\"><span><strong>Update available:</strong> ".to_owned();
    out.push_str(brand_e.as_str());
    out.push_str(" server ");
    out.push_str(version_e.as_str());
    out.push_str(" (running ");
    out.push_str(current_e.as_str());
    out.push_str(")</span> <a href=\"");
    out.push_str(url_e.as_str());
    out.push_str("\" target=\"_blank\" rel=\"noopener\">View release notes &rarr;</a></div>");
    out
}

/// The notice of a newer release; empty where none is known.
pub open spec fn update_banner(f: Frame) -> Seq<char> {
    if f.update.is_newer {
        banner_html(
            f.brand_name@,
            or_empty(opt_view(f.update.latest_version)),
            f.version@,
            or_empty(opt_view(f.update.html_url)),
        )
    } else {
        Seq::empty()
    }
}

/// The notice of a newer release; empty where none is known.
pub fn render_update_banner(f: &Frame) -> (r: String)
    ensures
        r@ == update_banner(*f),
{
    if !f.update.is_newer {
        let r: String = String::new();
        assert(r@ =~= Seq::<char>::empty());
        return r;
    }
    banner_text(
        f.brand_name.as_str(),
        text_or_empty(&f.update.latest_version),
        f.version.as_str(),
        text_or_empty(&f.update.html_url),
    )
}

/// The first letter of a name, in upper case.
pub open spec fn initial(name: Seq<char>) -> Seq<char> {
    if name.len() == 0 {
        Seq::empty()
    } else {
        uppercase_char(name[0])
    }
}

fn brand_initial(name: &str) -> (r: String)
    ensures
        r@ == initial(name@),
{
    let v: Vec<char> = chars_of(name);
    if v.len() == 0 {
        let r: String = String::new();
        assert(r@ =~= Seq::<char>::empty());
        return r;
    }
    let u: Vec<char> = char_to_uppercase(v[0]);
    string_of(&u)
}

/// The class of a navigation entry.
pub open spec fn active_class(active: NavTab, tab: NavTab) -> Seq<char> {
    if active == tab {
        "active"@
    } else {
        ""@
    }
}

fn class_of(active: NavTab, tab: NavTab) -> (r: &'static str)
    ensures
        r@ == active_class(active, tab),
{
    if active == tab {
        "active"
    } else {
        ""
    }
}

/// What the slots of the frame are filled with.
pub open spec fn page_slots(f: Frame, title: Seq<char>, active: NavTab, content: Seq<char>) -> Seq<
    (Seq<char>, Seq<char>),
> {
    seq![
        ("TITLE"@, title),
        ("BRAND_NAME"@, escaped(f.brand_name@)),
        ("BRAND_INITIAL"@, escaped(initial(f.brand_name@))),
        ("UPDATE_BANNER"@, update_banner(f)),
        ("USERS_ACTIVE"@, active_class(active, NavTab::Users)),
        ("LIBRARY_ACTIVE"@, active_class(active, NavTab::Library)),
        ("STATS_ACTIVE"@, active_class(active, NavTab::Stats)),
        ("AUDIT_ACTIVE"@, active_class(active, NavTab::Audit)),
        ("ONBOARDING_ACTIVE"@, active_class(active, NavTab::Onboarding)),
        ("INSIGHTS_ACTIVE"@, active_class(active, NavTab::Insights)),
        ("NAV_USER"@, escaped(f.user@)),
        ("NAV_ROLE"@, escaped(f.role@)),
        ("CONTENT"@, content),
    ]
}

/// A whole page: the layout with its slots filled. The content is inserted as it
/// stands; names and roles are escaped.
pub fn render_page(layout: &str, f: &Frame, title: &str, active: NavTab, content: &str) -> (r:
    String)
    ensures
        r@ == rendered(layout@, page_slots(*f, title@, active, content@)),
{
    let first = brand_initial(f.brand_name.as_str());
    let brand = escape_html(f.brand_name.as_str());
    let glyph = escape_html(first.as_str());
    let banner = render_update_banner(f);
    let user = escape_html(f.user.as_str());
    let role = escape_html(f.role.as_str());
    let slots: [(&str, &str); 13] = [
        ("TITLE", title),
        ("BRAND_NAME", brand.as_str()),
        ("BRAND_INITIAL", glyph.as_str()),
        ("UPDATE_BANNER", banner.as_str()),
        ("USERS_ACTIVE", class_of(active, NavTab::Users)),
        ("LIBRARY_ACTIVE", class_of(active, NavTab::Library)),
        ("STATS_ACTIVE", class_of(active, NavTab::Stats)),
        ("AUDIT_ACTIVE", class_of(active, NavTab::Audit)),
        ("ONBOARDING_ACTIVE", class_of(active, NavTab::Onboarding)),
        ("INSIGHTS_ACTIVE", class_of(active, NavTab::Insights)),
        ("NAV_USER", user.as_str()),
        ("NAV_ROLE", role.as_str()),
        ("CONTENT", content),
    ];
    assert(entries(slots@) =~= page_slots(*f, title@, active, content@));
    render(layout, slots.as_slice())
}

/// A page bears its title and content, the brand with its first letter in upper case, and who
/// is signed in. Of the tabs the one that is shown is active, and no other.
pub proof fn law_frames_bear_what_they_are_given(
    f: Frame,
    title: Seq<char>,
    tab: NavTab,
    content: Seq<char>,
)
    ensures
        ({
            let l = page_slots(f, title, tab, content);
            let mark = |t: NavTab|
                if tab == t {
                    "active"@
                } else {
                    ""@
                };
            &&& l.contains(("TITLE"@, title))
            &&& l.contains(("CONTENT"@, content))
            &&& l.contains(("BRAND_NAME"@, escaped(f.brand_name@)))
            &&& f.brand_name@.len() > 0 ==> l.contains(
                ("BRAND_INITIAL"@, escaped(uppercase_char(f.brand_name@[0]))),
            )
            &&& l.contains(("NAV_USER"@, escaped(f.user@)))
            &&& l.contains(("NAV_ROLE"@, escaped(f.role@)))
            &&& l.contains(("USERS_ACTIVE"@, mark(NavTab::Users)))
            &&& l.contains(("LIBRARY_ACTIVE"@, mark(NavTab::Library)))
            &&& l.contains(("STATS_ACTIVE"@, mark(NavTab::Stats)))
            &&& l.contains(("AUDIT_ACTIVE"@, mark(NavTab::Audit)))
            &&& l.contains(("ONBOARDING_ACTIVE"@, mark(NavTab::Onboarding)))
            &&& l.contains(("INSIGHTS_ACTIVE"@, mark(NavTab::Insights)))
            &&& !f.update.is_newer ==> l.contains(("UPDATE_BANNER"@, Seq::empty()))
        }),
{
    let l = page_slots(f, title, tab, content);
    assert(l[0] == ("TITLE"@, title));
    assert(l[1] == ("BRAND_NAME"@, escaped(f.brand_name@)));
    assert(l[2] == ("BRAND_INITIAL"@, escaped(initial(f.brand_name@))));
    assert(l[3] == ("UPDATE_BANNER"@, update_banner(f)));
    assert(l[4].0 == "USERS_ACTIVE"@);
    assert(l[5].0 == "LIBRARY_ACTIVE"@);
    assert(l[6].0 == "STATS_ACTIVE"@);
    assert(l[7].0 == "AUDIT_ACTIVE"@);
    assert(l[8].0 == "ONBOARDING_ACTIVE"@);
    assert(l[9].0 == "INSIGHTS_ACTIVE"@);
    assert(l[10].0 == "NAV_USER"@);
    assert(l[11].0 == "NAV_ROLE"@);
    assert(l[12].0 == "CONTENT"@);
}

} // verus!
