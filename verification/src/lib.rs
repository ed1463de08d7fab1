//! The decisions behind an Azure Arc managed identity: how a machine gets a token for the
//! identity that Azure Arc has given to it.
//!
//! The protocol has two requests. The first is refused with a challenge that names a file, and
//! the second one proves, with the content of that file, that the caller may read it:
//!
//! - [`credential`] knows the endpoint and begins a flow for a scope;
//! - [`flow`] decides, each time that something has happened, what to do next;
//! - [`challenge`], [`secret`] and [`token`] read the challenge, check the file and its path, and
//!   read the time of expiry;
//! - [`http`] and [`url`] make the requests;
//! - [`cache`] keeps tokens, [`error`] says what went wrong, [`text`] works on strings;
//! - [`laws`] states what holds of all of these together, and [`answer_laws`], [`path_laws`] and
//!   [`text_laws`] what each of them answers.
//!
//! Nothing here touches the network, the file system or the environment.
pub mod answer_laws;
pub mod cache;
pub mod challenge;
pub mod credential;
pub mod error;
pub mod flow;
pub mod http;
pub mod laws;
pub mod path_laws;
pub mod secret;
pub mod text;
pub mod text_laws;
pub mod token;
pub mod url;
