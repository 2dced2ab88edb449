//! Dotted action codes of the audit log.
use vstd::prelude::*;

verus! {

pub const USER_CREATE: &'static str = "user.create";

pub const USER_UPDATE: &'static str = "user.update";

pub const USER_DELETE: &'static str = "user.delete";

pub const LIBRARY_CREATE: &'static str = "library.create";

pub const LIBRARY_UPDATE: &'static str = "library.update";

pub const LIBRARY_DELETE: &'static str = "library.delete";

pub const LIBRARY_EXPORT: &'static str = "library.export";

pub const LIBRARY_IMPORT: &'static str = "library.import";

pub const LIBRARY_FOLDER_DELETE: &'static str = "library.folder.delete";

} // verus!
