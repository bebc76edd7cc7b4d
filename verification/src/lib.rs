//! Category management core: transliteration-aware slug derivation,
//! get-or-create stores for categories and category-user associations,
//! and the traversal from a user to the categories linked to them.

pub mod aggregate;
pub mod category_store;
pub mod category_user_store;
pub mod errors;
pub mod slug;
