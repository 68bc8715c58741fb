//! Runtime composition: tokio supplies the executor and timers, the
//! net provider supplies arti's TCP streams.

pub mod net;
