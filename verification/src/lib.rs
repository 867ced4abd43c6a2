//! Deployment manager for Docker Compose based repositories.
//!
//! For every configured repository the manager pulls the Git remote, compares
//! the `HEAD` commit before and after the pull, and redeploys the Compose
//! project only when the commit moved. Running processes is left to an
//! implementation of [`command::CommandRunner`], which the library reaches
//! only through a [`command::Session`]; the contracts state the calls made
//! through the session, in order, and derive every result from the replies.
pub mod arguments;
pub mod command;
pub mod configuration;
pub mod execution;
pub mod repository;
pub mod laws;
