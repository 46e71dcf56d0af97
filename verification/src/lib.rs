//! A fixed-size worker-thread pool, modelled and verified.
//!
//! The pool owns a FIFO dispatch queue carrying either a unit of work or a
//! stop signal, and a collection of workers that drain that queue.  This
//! crate verifies the protocol itself: construction, submission, the
//! poison-pill shutdown handshake, and the accounting that shows every
//! submitted job is executed exactly once and every worker terminates on
//! exactly one stop signal.  The operating-system threads and the socket
//! handling that feed the pool are collaborators outside the model: they
//! perform each step the model prescribes and hand back its outcome.

pub mod message;
pub mod pool;
pub mod route;
pub mod worker;
