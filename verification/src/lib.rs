//! The decisions of a server-side renderer that runs scripts on a pool of threads: which threads
//! there are, who serves a request, what a script may fetch, and which files its modules are.

pub mod channel;
pub mod fetch;
pub mod handler;
pub mod headers;
pub mod module;
pub mod pool;
pub mod runtime;
pub mod worker;
