//! Preference-menu logic of the status service and the generator of the
//! `t!` translation macro, with their contracts.

pub mod volume;
pub mod text_order;
pub mod placeholders;
pub mod translations;
pub mod codegen;
pub mod locales;
pub mod pref_ops;
pub mod pref_menu;
pub mod decimal;
pub mod pref_dialogs;
pub mod pref_handler;

pub use locales::generate_locales;
pub use pref_handler::PrefHandler;
pub use pref_ops::PrefsMenuUpdateOp;
pub use volume::percentage_to_db;
