//! The admin dashboard: pages, forms and sessions.

pub mod ages;
pub mod audit_laws;
pub mod audit_page;
pub mod audit_text;
pub mod cards;
pub mod contents;
pub mod folder_tree;
pub mod folders;
pub mod forms;
pub mod insights;
pub mod layout;
pub mod library_forms;
pub mod library_page;
pub mod markup;
pub mod onboarding;
pub mod selection_tree;
pub mod session;
pub mod sign_in;
pub mod stats;
pub mod transfer;
pub mod tree_order;
pub mod user_detail;
pub mod users;
