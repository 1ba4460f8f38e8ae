//! Rewrites host-runtime diagnostic messages according to a user-set
//! template before they reach the runtime's original error handler.
//!
//! The verified core: resolving the host runtime's API identifier to a
//! supported generation ([`version`]), parsing the runtime's
//! introspection output ([`phpinfo`]), substituting placeholders into
//! the template ([`format`]), and deciding per diagnostic whether to
//! forward, reformat, or drop ([`hook`]).
//!
//! The foreign-runtime edge — the global handler slot, the foreign
//! string types, the configuration table — stays outside this crate;
//! it hands these functions plain bytes and integers and acts on the
//! decisions they return.

pub mod format;
pub mod hook;
pub mod phpinfo;
pub mod version;
