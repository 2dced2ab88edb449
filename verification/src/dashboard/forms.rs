//! What the dashboard's forms and query strings carry.
use crate::text::same_text;
use crate::trim::trim;
use vstd::prelude::*;

verus! {

use crate::trim::{all_blank, law_blank_texts, law_outer_blanks_are_trimmed, trimmed};

#[derive(Debug)]
pub struct IndexQuery {
    pub expired: Option<String>,
    pub error: Option<String>,
    pub redirect_to: Option<String>,
}

#[derive(Debug)]
pub struct DashboardOidcStartQuery {
    pub redirect_to: Option<String>,
}

#[derive(Debug)]
pub struct LoginForm {
    pub email: String,
    pub password: String,
    pub redirect_to: Option<String>,
}

#[derive(Debug)]
pub struct SetupForm {
    pub display_name: String,
    pub email: String,
    pub password: String,
}

#[derive(Debug)]
pub struct CreateUserForm {
    pub email: String,
    pub display_name: String,
    pub password: String,
    pub role: String,
}

#[derive(Debug)]
pub struct UserUpdateForm {
    pub role: Option<String>,
    pub is_disabled: Option<UpdateFlag>,
}

/// A flag that comes as a boolean or as its text.
#[derive(Debug)]
pub enum UpdateFlag {
    Bool(bool),
    Str(String),
}

impl UpdateFlag {
    /// What the flag says, where it says anything.
    pub open spec fn says(self) -> Option<bool> {
        match self {
            UpdateFlag::Bool(b) => Some(b),
            UpdateFlag::Str(s) => if trimmed(s@) == "true"@ || trimmed(s@) == "1"@ {
                Some(true)
            } else if trimmed(s@) == "false"@ || trimmed(s@) == "0"@ {
                Some(false)
            } else {
                None
            },
        }
    }

    /// What the flag says, where it says anything.
    pub fn as_bool(&self) -> (r: Option<bool>)
        ensures
            r == self.says(),
    {
        match self {
            UpdateFlag::Bool(b) => Some(*b),
            UpdateFlag::Str(s) => {
                let t = trim(s.as_str());
                if same_text(t.as_str(), "true") || same_text(t.as_str(), "1") {
                    Some(true)
                } else if same_text(t.as_str(), "false") || same_text(t.as_str(), "0") {
                    Some(false)
                } else {
                    None
                }
            },
        }
    }
}

#[derive(Debug)]
pub struct LibraryExportQuery {
    pub format: Option<String>,
    pub q: Option<String>,
    pub folder: Option<String>,
}

#[derive(Debug)]
pub struct LibraryExportSelectedForm {
    pub format: Option<String>,
    /// A JSON array of snippet ids.
    pub selected: String,
}

#[derive(Debug)]
pub struct ImportPreviewForm {
    pub content: String,
}

#[derive(Debug)]
pub struct ImportConfirmForm {
    /// The entries of the preview, as JSON.
    pub payload: String,
    /// A JSON array of the selected indices.
    pub selected: String,
}

#[derive(Debug)]
pub struct LibraryPageQuery {
    pub folder: Option<String>,
    /// Free text, looked for in title, body and tags.
    pub q: Option<String>,
    pub imported: Option<usize>,
    pub skipped: Option<usize>,
    pub folder_deleted: Option<String>,
    pub moved: Option<usize>,
    pub deleted: Option<usize>,
}

#[derive(Debug)]
pub struct LibraryCreateForm {
    pub title: String,
    pub body: String,
    pub tags: String,
    pub folder_path: String,
}

#[derive(Debug)]
pub struct LibraryEditForm {
    pub title: String,
    pub body: String,
    pub tags: String,
    pub folder_path: String,
    /// The version that the edit started from.
    pub expected_version: i64,
}

#[derive(Debug)]
pub struct LibraryMoveForm {
    pub folder_path: String,
}

#[derive(Debug)]
pub struct FolderCreateForm {
    pub path: String,
}

#[derive(Debug)]
pub struct FolderReorderBody {
    /// The folder whose children are reordered; empty for the top level.
    pub parent: String,
    /// The siblings in their new order.
    pub paths: Vec<String>,
}

#[derive(Debug)]
pub struct FolderMoveForm {
    pub old: String,
    /// The destination; empty for the top level.
    pub new: String,
}

#[derive(Debug)]
pub struct FolderDeleteConfirmQuery {
    pub path: String,
}

#[derive(Debug)]
pub struct FolderDeleteForm {
    pub path: String,
    /// What becomes of the folder's snippets.
    pub mode: String,
}

#[derive(Debug)]
pub struct InsightsQuery {
    /// The column that the table is sorted by.
    pub sort: Option<String>,
}

#[derive(Debug)]
pub struct AuditPageQuery {
    /// Zero-based.
    pub page: Option<i64>,
    pub per_page: Option<i64>,
    pub q: Option<String>,
    /// The action verb.
    pub action: Option<String>,
    /// The actor's user id.
    pub actor: Option<String>,
    /// A window in days; absent or zero means all time.
    pub since: Option<i64>,
}

/// A flag is read from a truth value, or from a text that says `true`, `1`, `false` or `0`
/// between blanks; any other text says nothing.
pub proof fn law_flags_are_read(a: Seq<char>, b: Seq<char>, s: String, v: bool)
    requires
        all_blank(a),
        all_blank(b),
    ensures
        UpdateFlag::Bool(v).says() == Some(v),
        s@ == a + seq!['t', 'r', 'u', 'e'] + b ==> UpdateFlag::Str(s).says() == Some(true),
        s@ == a + seq!['1'] + b ==> UpdateFlag::Str(s).says() == Some(true),
        s@ == a + seq!['f', 'a', 'l', 's', 'e'] + b ==> UpdateFlag::Str(s).says() == Some(false),
        s@ == a + seq!['0'] + b ==> UpdateFlag::Str(s).says() == Some(false),
        all_blank(s@) ==> UpdateFlag::Str(s).says() is None,
{
    reveal_strlit("true");
    reveal_strlit("1");
    reveal_strlit("false");
    reveal_strlit("0");
    assert("true"@ =~= seq!['t', 'r', 'u', 'e']);
    assert("1"@ =~= seq!['1']);
    assert("false"@ =~= seq!['f', 'a', 'l', 's', 'e']);
    assert("0"@ =~= seq!['0']);
    assert("true"@.len() == 4 && "false"@.len() == 5 && "1"@.len() == 1 && "0"@.len() == 1);
    assert("0"@[0] != "1"@[0]);
    law_outer_blanks_are_trimmed(a, "true"@, b);
    law_outer_blanks_are_trimmed(a, "1"@, b);
    law_outer_blanks_are_trimmed(a, "false"@, b);
    law_outer_blanks_are_trimmed(a, "0"@, b);
    law_blank_texts(s@);
}

} // verus!
